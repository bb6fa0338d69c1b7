//! The 32-byte directory entries of a FAT volume: 8.3 entries, the VFAT
//! entries that carry a long name, and the FAT date and time they hold.
use vstd::prelude::*;
use crate::flash::fat_names::{units, utf16_len};

verus! {

/// A FAT date and time (2-second resolution, from 1980 on).
#[derive(Debug, Clone, Copy, PartialEq, Eq, Structural)]
pub struct FatDateTime {
    pub date: u16,
    pub time: u16,
}

/// The smaller of two numbers.
pub open spec fn min_int(a: int, b: int) -> int {
    if a < b {
        a
    } else {
        b
    }
}

/// Date and time fields of a FAT timestamp: years since 1980 in bits
/// 9-15, month in 5-8, day in 0-4; hours in 11-15, minutes in 5-10,
/// two-second units in 0-4. Dates FAT can't hold give 1980-01-01 00:00.
pub open spec fn fat_stamp(year: int, month: int, day: int, hour: int, minute: int, second: int) -> (
    int,
    int,
) {
    if !(1980 <= year <= 2107 && 1 <= month <= 12 && 1 <= day <= 31) {
        (33, 0)
    } else {
        (
            (year - 1980) * 512 + month * 32 + day,
            min_int(hour, 23) * 2048 + min_int(minute, 59) * 32 + min_int(second, 59) / 2,
        )
    }
}

impl FatDateTime {
    /// A timestamp for the given date and time; hours, minutes and seconds
    /// out of range are capped.
    pub fn new(year: u16, month: u8, day: u8, hour: u8, minute: u8, second: u8) -> (r: Self)
        ensures
            (r.date as int, r.time as int) == fat_stamp(
                year as int,
                month as int,
                day as int,
                hour as int,
                minute as int,
                second as int,
            ),
    {
        if !(1980 <= year && year <= 2107) || !(1 <= month && month <= 12) || !(1 <= day && day
            <= 31) {
            return FatDateTime::default();
        }
        let h: u16 = if hour < 23 {
            hour as u16
        } else {
            23
        };
        let m: u16 = if minute < 59 {
            minute as u16
        } else {
            59
        };
        let s: u16 = if second < 59 {
            second as u16
        } else {
            59
        };
        FatDateTime { date: (year - 1980) * 512 + month as u16 * 32 + day as u16, time: h * 2048 + m * 32 + s / 2 }
    }
}

impl Default for FatDateTime {
    /// 1980-01-01 00:00.
    fn default() -> (r: Self)
        ensures
            r.date == 33,
            r.time == 0,
    {
        FatDateTime { date: 33, time: 0 }
    }
}

/// Byte `k` (0 or 1) of a 16-bit value, little-endian.
pub open spec fn byte16(v: int, k: int) -> u8 {
    if k == 0 {
        (v % 256) as u8
    } else {
        ((v / 256) % 256) as u8
    }
}

/// Byte `k` (0 to 3) of a 32-bit value, little-endian.
pub open spec fn byte32(v: int, k: int) -> u8 {
    if k == 0 {
        (v % 256) as u8
    } else if k == 1 {
        ((v / 256) % 256) as u8
    } else if k == 2 {
        ((v / 65536) % 256) as u8
    } else {
        ((v / 16777216) % 256) as u8
    }
}

/// The bytes of a 32-bit value, little-endian.
pub open spec fn le32(v: int) -> Seq<u8> {
    seq![byte32(v, 0), byte32(v, 1), byte32(v, 2), byte32(v, 3)]
}

/// The bytes of a 16-bit value, little-endian.
pub open spec fn le16(v: int) -> Seq<u8> {
    seq![byte16(v, 0), byte16(v, 1)]
}

pub fn byte16_exec(v: u32, k: u32) -> (r: u8)
    requires
        k < 2,
    ensures
        r == byte16(v as int, k as int),
{
    if k == 0 {
        (v % 256) as u8
    } else {
        ((v / 256) % 256) as u8
    }
}

pub fn byte32_exec(v: u32, k: u32) -> (r: u8)
    requires
        k < 4,
    ensures
        r == byte32(v as int, k as int),
{
    if k == 0 {
        (v % 256) as u8
    } else if k == 1 {
        ((v / 256) % 256) as u8
    } else if k == 2 {
        ((v / 65536) % 256) as u8
    } else {
        ((v / 16777216) % 256) as u8
    }
}

/// Byte `b` of an 8.3 directory entry.
pub open spec fn short_byte(
    name: Seq<u8>,
    attr: u8,
    cluster: u32,
    size: u32,
    dt: FatDateTime,
    b: int,
) -> u8 {
    if b < 11 {
        name[b]
    } else if b == 11 {
        attr
    } else if b < 14 {
        0u8
    } else if b < 16 {
        byte16(dt.time as int, b - 14)
    } else if b < 18 {
        byte16(dt.date as int, b - 16)
    } else if b < 20 {
        byte16(dt.date as int, b - 18)
    } else if b < 22 {
        byte16(cluster as int / 65536, b - 20)
    } else if b < 24 {
        byte16(dt.time as int, b - 22)
    } else if b < 26 {
        byte16(dt.date as int, b - 24)
    } else if b < 28 {
        byte16(cluster as int % 65536, b - 26)
    } else {
        byte32(size as int, b - 28)
    }
}

/// An 8.3 directory entry: name, attributes, the timestamp as creation,
/// access and write time, first cluster and size.
pub open spec fn short_entry_bytes(
    name: Seq<u8>,
    attr: u8,
    cluster: u32,
    size: u32,
    dt: FatDateTime,
) -> Seq<u8> {
    Seq::new(32, |b: int| short_byte(name, attr, cluster, size, dt, b))
}

/// The 32 bytes of an 8.3 directory entry.
pub fn short_entry(name: &[u8; 11], attr: u8, cluster: u32, size: u32, dt: FatDateTime) -> (r: Vec<
    u8,
>)
    ensures
        r@ == short_entry_bytes(name@, attr, cluster, size, dt),
{
    let mut e: Vec<u8> = Vec::new();
    let mut b: usize = 0;
    while b < 32
        invariant
            b <= 32,
            name@.len() == 11,
            e@.len() == b,
            forall|j: int| 0 <= j < b ==> e@[j] == #[trigger] short_byte(name@, attr, cluster, size, dt, j),
        decreases 32 - b,
    {
        let v: u8 = if b < 11 {
            name[b]
        } else if b == 11 {
            attr
        } else if b < 14 {
            0u8
        } else if b < 16 {
            byte16_exec(dt.time as u32, (b - 14) as u32)
        } else if b < 18 {
            byte16_exec(dt.date as u32, (b - 16) as u32)
        } else if b < 20 {
            byte16_exec(dt.date as u32, (b - 18) as u32)
        } else if b < 22 {
            byte16_exec(cluster / 65536, (b - 20) as u32)
        } else if b < 24 {
            byte16_exec(dt.time as u32, (b - 22) as u32)
        } else if b < 26 {
            byte16_exec(dt.date as u32, (b - 24) as u32)
        } else if b < 28 {
            byte16_exec(cluster % 65536, (b - 26) as u32)
        } else {
            byte32_exec(size, (b - 28) as u32)
        };
        e.push(v);
        b = b + 1;
    }
    assert(e@ =~= short_entry_bytes(name@, attr, cluster, size, dt));
    e
}

/// The checksum of an 8.3 name that its long name entries carry: each
/// step rotates the sum right by one bit and adds the next byte.
pub open spec fn checksum_upto(name: Seq<u8>, i: int) -> u8
    decreases i,
{
    if i <= 0 {
        0u8
    } else {
        let p = checksum_upto(name, i - 1) as int;
        (((p % 2) * 128 + p / 2 + name[i - 1]) % 256) as u8
    }
}

pub fn lfn_checksum(short: &[u8; 11]) -> (r: u8)
    ensures
        r == checksum_upto(short@, 11),
{
    let mut sum: u8 = 0;
    let mut i: usize = 0;
    while i < 11
        invariant
            i <= 11,
            short@.len() == 11,
            sum == checksum_upto(short@, i as int),
        decreases 11 - i,
    {
        let rotated: u16 = (sum % 2) as u16 * 128 + (sum / 2) as u16;
        sum = ((rotated + short[i] as u16) % 256) as u8;
        i = i + 1;
    }
    sum
}

/// The UTF-16 code units of one character.
pub open spec fn char_units(c: char) -> Seq<u16> {
    if (c as u32) >= 0x10000 {
        let v = (c as u32) - 0x10000;
        seq![(0xD800 + v / 1024) as u16, (0xDC00 + v % 1024) as u16]
    } else {
        seq![(c as u32) as u16]
    }
}

/// A text in UTF-16 (`str::encode_utf16`).
pub open spec fn utf16_units(s: Seq<char>) -> Seq<u16>
    decreases s.len(),
{
    if s.len() == 0 {
        Seq::empty()
    } else {
        utf16_units(s.drop_last()) + char_units(s.last())
    }
}

/// A text in UTF-16 code units.
pub fn encode_utf16(s: &str) -> (r: Vec<u16>)
    ensures
        r@ == utf16_units(s@),
{
    let len = s.unicode_len();
    let mut out: Vec<u16> = Vec::new();
    let mut i: usize = 0;
    while i < len
        invariant
            len == s@.len(),
            i <= len,
            out@ == utf16_units(s@.take(i as int)),
        decreases len - i,
    {
        let c = s.get_char(i);
        let v = c as u32;
        assert(s@.take(i + 1).drop_last() =~= s@.take(i as int));
        assert(s@.take(i + 1).last() == c);
        if v >= 0x10000 {
            let w = v - 0x10000;
            proof {
                assert(w < 0x100000);
            }
            let ghost before = out@;
            out.push((0xD800 + w / 1024) as u16);
            out.push((0xDC00 + w % 1024) as u16);
            assert(out@ =~= before + char_units(c));
        } else {
            let ghost before = out@;
            out.push(v as u16);
            assert(out@ =~= before + char_units(c));
        }
        i = i + 1;
    }
    assert(s@.take(len as int) =~= s@);
    out
}

/// Byte `k` of UTF-16 unit `u` as stored.
pub open spec fn unit_byte(u: u16, k: int) -> u8 {
    byte16(u as int, k)
}

/// The name's units grouped in thirteens: a 0 after the name where it
/// doesn't fill its last group, then 0xFFFF.
pub open spec fn padded_unit(name: Seq<u16>, k: int) -> u16 {
    if k < name.len() {
        name[k]
    } else if k == name.len() {
        0u16
    } else {
        0xFFFFu16
    }
}

/// Number of long name entries for a name of `len` units.
pub open spec fn lfn_parts(len: int) -> int {
    (len + 12) / 13
}

/// The sequence number byte of part `i` (from 0) of `parts`: `i + 1`,
/// with 0x40 on the last part.
pub open spec fn lfn_order(i: int, parts: int) -> u8 {
    (((i + 1) as u8) | (if i + 1 == parts {
        0x40u8
    } else {
        0u8
    }))
}

/// Byte `b` of long name entry `i` of `name`.
pub open spec fn lfn_byte(name: Seq<u16>, checksum: u8, i: int, b: int) -> u8 {
    let base = 13 * i;
    if b == 0 {
        lfn_order(i, lfn_parts(name.len() as int))
    } else if b == 11 {
        15u8
    } else if b == 13 {
        checksum
    } else if 1 <= b < 11 {
        unit_byte(padded_unit(name, base + (b - 1) / 2), (b - 1) % 2)
    } else if 14 <= b < 26 {
        unit_byte(padded_unit(name, base + 5 + (b - 14) / 2), (b - 14) % 2)
    } else if 28 <= b < 32 {
        unit_byte(padded_unit(name, base + 11 + (b - 28) / 2), (b - 28) % 2)
    } else {
        0u8
    }
}

/// Long name entry `i` (from 0) of a name.
pub open spec fn lfn_entry(name: Seq<u16>, checksum: u8, i: int) -> Seq<u8> {
    Seq::new(32, |b: int| lfn_byte(name, checksum, i, b))
}

/// The long name entries as stored: the last part first.
pub open spec fn lfn_entries_bytes(name: Seq<u16>, checksum: u8) -> Seq<Seq<u8>> {
    let parts = lfn_parts(name.len() as int);
    Seq::new(parts as nat, |j: int| lfn_entry(name, checksum, parts - 1 - j))
}

fn padded_unit_exec(name: &Vec<u16>, k: usize) -> (r: u16)
    ensures
        r == padded_unit(name@, k as int),
{
    if k < name.len() {
        name[k]
    } else if k == name.len() {
        0u16
    } else {
        0xFFFFu16
    }
}

fn lfn_entry_exec(name: &Vec<u16>, checksum: u8, i: usize, parts: usize) -> (r: Vec<u8>)
    requires
        parts == lfn_parts(name.len() as int),
        i < parts,
        name.len() + 13 <= usize::MAX,
    ensures
        r@ == lfn_entry(name@, checksum, i as int),
{
    let base = 13 * i;
    let order: u8 = if i + 1 == parts {
        ((i + 1) as u8) | 0x40u8
    } else {
        ((i + 1) as u8) | 0u8
    };
    let mut e: Vec<u8> = Vec::new();
    let mut b: usize = 0;
    while b < 32
        invariant
            b <= 32,
            base == 13 * i,
            i < parts,
            parts == lfn_parts(name.len() as int),
            name.len() <= 13 * parts,
            13 * parts <= name.len() + 12,
            name.len() + 13 <= usize::MAX,
            order == lfn_order(i as int, parts as int),
            e@.len() == b,
            forall|j: int| 0 <= j < b ==> e@[j] == #[trigger] lfn_byte(name@, checksum, i as int, j),
        decreases 32 - b,
    {
        let v: u8 = if b == 0 {
            order
        } else if b == 11 {
            15u8
        } else if b == 13 {
            checksum
        } else if 1 <= b && b < 11 {
            byte16_exec(padded_unit_exec(name, base + (b - 1) / 2) as u32, ((b - 1) % 2) as u32)
        } else if 14 <= b && b < 26 {
            byte16_exec(padded_unit_exec(name, base + 5 + (b - 14) / 2) as u32, ((b - 14) % 2) as u32)
        } else if 28 <= b && b < 32 {
            byte16_exec(padded_unit_exec(name, base + 11 + (b - 28) / 2) as u32, ((b - 28) % 2) as u32)
        } else {
            0u8
        };
        e.push(v);
        b = b + 1;
    }
    assert(e@ =~= lfn_entry(name@, checksum, i as int));
    e
}

/// Long name entries in on-disk order (the last part first).
pub fn lfn_entries(name: &Vec<u16>, checksum: u8) -> (r: Vec<Vec<u8>>)
    requires
        name.len() + 13 <= usize::MAX,
    ensures
        r@.len() == lfn_entries_bytes(name@, checksum).len(),
        forall|j: int| 0 <= j < r@.len() ==> #[trigger] r@[j]@ == lfn_entries_bytes(name@, checksum)[j],
{
    let parts = name.len() / 13 + if name.len() % 13 != 0 {
        1
    } else {
        0
    };
    assert(parts == lfn_parts(name.len() as int));
    let mut out: Vec<Vec<u8>> = Vec::new();
    let mut j: usize = 0;
    while j < parts
        invariant
            parts == lfn_parts(name.len() as int),
            name.len() + 13 <= usize::MAX,
            j <= parts,
            out@.len() == j,
            forall|k: int| 0 <= k < j ==> #[trigger] out@[k]@ == lfn_entry(name@, checksum, parts - 1 - k),
        decreases parts - j,
    {
        out.push(lfn_entry_exec(name, checksum, parts - 1 - j, parts));
        j = j + 1;
    }
    out
}


pub proof fn lemma_utf16_units_len(s: Seq<char>)
    ensures
        utf16_units(s).len() == utf16_len(s),
    decreases s.len(),
{
    if s.len() > 0 {
        lemma_utf16_units_len(s.drop_last());
    }
}

} // verus!
