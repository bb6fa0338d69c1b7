//! The file tree of an ISO 9660 image, the file system of CD/DVD images,
//! and the pieces of its on-disk format: directory records, volume
//! descriptors and Rock Ridge entries.
//!
//! Names come from Rock Ridge (POSIX names) when the image has it, else
//! from Joliet (UTF-16 names), else from plain ISO 9660 names. Rock Ridge
//! symbolic links are skipped, since FAT32 can't represent them.
use vstd::prelude::*;
use crate::models::trimmed;
use std::collections::HashSet;

verus! {

broadcast use vstd::std_specs::hash::group_hash_axioms;

/// Bytes per ISO 9660 sector.
pub const ISO_SECTOR: u64 = 2048;

/// Deeper trees than this are treated as broken images.
pub const MAX_DEPTH: usize = 64;

/// More entries than this are treated as broken images.
pub const MAX_NODES: usize = 1000000;

#[derive(Debug, Clone, Copy, PartialEq, Eq, Default, Structural)]
pub struct IsoDate {
    pub year: u16,
    pub month: u8,
    pub day: u8,
    pub hour: u8,
    pub minute: u8,
    pub second: u8,
}

/// A contiguous run of a file's bytes inside the image.
#[derive(Debug, Clone, Copy, PartialEq, Eq, Structural)]
pub struct Extent {
    /// Byte offset in the image.
    pub offset: u64,
    pub len: u64,
}

/// A directory or file of the image.
#[derive(Debug, PartialEq, Eq)]
pub enum IsoNode {
    Dir { name: String, date: IsoDate, children: Vec<IsoNode> },
    File {
        name: String,
        date: IsoDate,
        size: u64,
        /// Usually one; files over 4 GiB are split into several.
        extents: Vec<Extent>,
    },
}

impl IsoNode {
    pub open spec fn spec_name(&self) -> Seq<char> {
        match self {
            IsoNode::Dir { name, .. } => name@,
            IsoNode::File { name, .. } => name@,
        }
    }

    pub fn name(&self) -> (r: &str)
        ensures
            r@ == self.spec_name(),
    {
        match self {
            IsoNode::Dir { name, .. } => name.as_str(),
            IsoNode::File { name, .. } => name.as_str(),
        }
    }
}

/// Where the names of an image come from.
#[derive(Debug, Clone, Copy, PartialEq, Eq, Structural)]
pub enum NameSource {
    RockRidge,
    Joliet,
    Iso9660,
}

/// The file tree of an image.
#[derive(Debug)]
pub struct IsoTree {
    /// The primary volume identifier, e.g. `ARCH_202409`.
    pub volume_label: String,
    pub children: Vec<IsoNode>,
    pub names: NameSource,
    pub symlinks_skipped: usize,
    /// The image also has a UDF file system (as Windows installer images
    /// do, whose real files only exist there).
    pub has_udf: bool,
}

/// The little-endian 32-bit value at `at`.
pub open spec fn le_u32_at(b: Seq<u8>, at: int) -> int {
    b[at] + 256 * b[at + 1] + 65536 * b[at + 2] + 16777216 * b[at + 3]
}

pub fn le_u32(b: &Vec<u8>, at: usize) -> (r: u32)
    requires
        at + 4 <= b.len(),
    ensures
        r == le_u32_at(b@, at as int),
{
    b[at] as u32 + 256 * (b[at + 1] as u32) + 65536 * (b[at + 2] as u32) + 16777216 * (b[at
        + 3] as u32)
}

/// Directory records are a plain directory (`.`, `..` and subdirectories).
pub const FLAG_DIR: u8 = 0x02;

/// An associated file (a resource fork), which is skipped.
pub const FLAG_ASSOCIATED: u8 = 0x04;

/// More extents of the same file follow.
pub const FLAG_MULTI_EXTENT: u8 = 0x80;

/// A directory record inside a buffer: its fields, and where its name and
/// system use area lie in the buffer.
#[derive(Debug, Clone, Copy, PartialEq, Eq, Structural)]
pub struct Record {
    /// Byte length of the record.
    pub len: usize,
    pub extent: u32,
    pub size: u32,
    pub flags: u8,
    pub date: IsoDate,
    pub name_start: usize,
    pub name_len: usize,
    pub su_start: usize,
    pub su_end: usize,
}

/// The record at `at` in `b`, if one is there: a length byte of at least
/// 34 that fits, a name that fits, the system use area after the name
/// and a padding byte that keeps it at an even offset.
pub open spec fn spec_parse_record(b: Seq<u8>, at: int) -> Option<Record> {
    if at < 0 || at >= b.len() {
        None
    } else {
        let len = b[at] as int;
        if len < 34 || at + len > b.len() {
            None
        } else {
            let name_len = b[at + 32] as int;
            if 33 + name_len > len {
                None
            } else {
                let su = 33 + name_len + (1 - name_len % 2);
                Some(
                    Record {
                        len: len as usize,
                        extent: le_u32_at(b, at + 2) as u32,
                        size: le_u32_at(b, at + 10) as u32,
                        flags: b[at + 25],
                        date: IsoDate {
                            year: (1900 + b[at + 18]) as u16,
                            month: b[at + 19],
                            day: b[at + 20],
                            hour: b[at + 21],
                            minute: b[at + 22],
                            second: b[at + 23],
                        },
                        name_start: (at + 33) as usize,
                        name_len: name_len as usize,
                        su_start: (if su <= len { at + su } else { at + len }) as usize,
                        su_end: (at + len) as usize,
                    },
                )
            }
        }
    }
}

/// Parses the directory record at `at`.
pub fn parse_record(b: &Vec<u8>, at: usize) -> (r: Option<Record>)
    ensures
        r == spec_parse_record(b@, at as int),
        r matches Some(rec) ==> at + rec.len <= b.len() && rec.name_start + rec.name_len <= rec.su_end
            && rec.su_start <= rec.su_end == at + rec.len && rec.len >= 34,
{
    if at >= b.len() {
        return None;
    }
    let len = b[at] as usize;
    if len < 34 || len > b.len() - at {
        return None;
    }
    let name_len = b[at + 32] as usize;
    if 33 + name_len > len {
        return None;
    }
    let su = 33 + name_len + (1 - name_len % 2);
    Some(
        Record {
            len,
            extent: le_u32(b, at + 2),
            size: le_u32(b, at + 10),
            flags: b[at + 25],
            date: IsoDate {
                year: 1900 + b[at + 18] as u16,
                month: b[at + 19],
                day: b[at + 20],
                hour: b[at + 21],
                minute: b[at + 22],
                second: b[at + 23],
            },
            name_start: at + 33,
            name_len,
            su_start: if su <= len {
                at + su
            } else {
                at + len
            },
            su_end: at + len,
        },
    )
}

/// The records of a directory's data from `pos` on. Records never cross
/// a sector boundary: a zero length byte means the rest of the sector is
/// padding. A broken record ends the list.
pub open spec fn records_from(data: Seq<u8>, pos: int) -> Seq<Record>
    decreases data.len() + 2048 - pos,
{
    if pos < 0 || pos >= data.len() {
        Seq::empty()
    } else if data[pos] == 0 {
        proof {
            assert(pos < (pos / 2048 + 1) * 2048 <= pos + 2048) by (nonlinear_arith)
                requires
                    pos >= 0,
            ;
        }
        records_from(data, (pos / 2048 + 1) * 2048)
    } else {
        match spec_parse_record(data, pos) {
            Some(r) => seq![r] + records_from(data, pos + data[pos]),
            None => Seq::empty(),
        }
    }
}

/// The records of a directory's data.
pub fn records(data: &Vec<u8>) -> (r: Vec<Record>)
    ensures
        r@ == records_from(data@, 0),
        forall|k: int| 0 <= k < r.len() ==> #[trigger] r@[k].su_end <= data.len(),
        forall|k: int| 0 <= k < r.len() ==> #[trigger] r@[k].name_start + r@[k].name_len <= r@[k].su_end
            && r@[k].su_start <= r@[k].su_end,
{
    let mut out: Vec<Record> = Vec::new();
    let mut pos: usize = 0;
    let mut done = false;
    while pos < data.len() && !done
        invariant
            done ==> out@ == records_from(data@, 0),
            !done ==> out@ + records_from(data@, pos as int) == records_from(data@, 0),
            forall|k: int| 0 <= k < out.len() ==> #[trigger] out@[k].su_end <= data.len(),
            forall|k: int| 0 <= k < out.len() ==> #[trigger] out@[k].name_start + out@[k].name_len <= out@[k].su_end
                && out@[k].su_start <= out@[k].su_end,
        decreases data.len() - pos + (if done { 0int } else { 1int }),
    {
        if data[pos] == 0 {
            let next: u128 = (pos as u128 / 2048 + 1) * 2048;
            if next >= data.len() as u128 {
                assert(records_from(data@, (pos / 2048 + 1) * 2048) == Seq::<Record>::empty());
                assert(out@ + Seq::<Record>::empty() =~= out@);
                done = true;
            } else {
                pos = next as usize;
            }
        } else {
            match parse_record(data, pos) {
                Some(r) => {
                    let ghost before = out@;
                    out.push(r);
                    assert forall|k: int| 0 <= k < out.len() implies #[trigger] out@[k].name_start
                        + out@[k].name_len <= out@[k].su_end && out@[k].su_start <= out@[k].su_end by {
                        if k < before.len() {
                            assert(out@[k] == before[k]);
                        }
                    }
                    assert(before + (seq![r] + records_from(data@, pos + data@[pos as int])) =~= out@
                        + records_from(data@, pos + data@[pos as int]));
                    pos = pos + data[pos] as usize;
                },
                None => {
                    assert(out@ + Seq::<Record>::empty() =~= out@);
                    done = true;
                },
            }
        }
    }
    if !done {
        assert(out@ + Seq::<Record>::empty() =~= out@);
    }
    out
}

/// Why an image's tree could not be read.
#[derive(Debug)]
pub enum IsoError {
    /// Reading the image failed.
    Io(String),
    /// The image is not a (sound) ISO 9660 image.
    Invalid(String),
}

/// Where an image's bytes are read from.
///
/// A source that says which bytes it holds (`describes_image`) promises
/// that every successful read gives exactly those bytes; the contracts of
/// the tree reader then speak of them. A source that says nothing (the
/// default) promises nothing of what it reads.
pub trait IsoSource {
    /// Whether `image` gives the bytes this source reads from.
    open spec fn describes_image(&self) -> bool {
        false
    }

    /// The bytes of the image, where the source describes them.
    open spec fn image(&self) -> Seq<u8> {
        Seq::empty()
    }

    /// `len` bytes from byte `offset` on: where the source describes its
    /// image and the read succeeds, exactly those bytes of the image.
    /// Reading leaves the image as it is.
    fn read_at(&mut self, offset: u64, len: usize) -> (r: Result<Vec<u8>, String>)
        ensures
            final(self).image() == old(self).image(),
            final(self).describes_image() == old(self).describes_image(),
            old(self).describes_image() ==> (r matches Ok(v) ==> offset + len <= old(self).image().len() && v@
                == old(self).image().subrange(offset as int, offset + len)),
    ;
}

/// An image held in memory.
pub struct MemImage {
    pub bytes: Vec<u8>,
}

impl IsoSource for MemImage {
    open spec fn describes_image(&self) -> bool {
        true
    }

    open spec fn image(&self) -> Seq<u8> {
        self.bytes@
    }

    /// Fails exactly where the image ends before the bytes asked for.
    fn read_at(&mut self, offset: u64, len: usize) -> (r: Result<Vec<u8>, String>)
        ensures
            r is Ok <==> offset + len <= old(self).bytes@.len(),
            r matches Err(m) ==> m@ == "unexpected end of file"@,
    {
        let n = self.bytes.len();
        if offset > n as u64 || len > n - offset as usize {
            return Err(String::from_str("unexpected end of file"));
        }
        let from = offset as usize;
        Ok(slice_vec(&self.bytes, from, from + len))
    }
}

/// What `String::from_utf8_lossy` makes of the bytes.
pub uninterp spec fn utf8_lossy(bytes: Seq<u8>) -> Seq<char>;

/// `String::from_utf8_lossy`: valid UTF-8 decodes as it is; every
/// invalid sequence becomes U+FFFD (the contract names that result).
#[verifier::external_body]
fn from_utf8_lossy(bytes: &[u8]) -> (r: String)
    ensures
        r@ == utf8_lossy(bytes@),
        vstd::utf8::valid_utf8(bytes@) ==> r@ == vstd::utf8::decode_utf8(bytes@),
{
    String::from_utf8_lossy(bytes).into_owned()
}

/// UTF-16 `units` decoded: a high surrogate followed by a low one makes
/// one character, every other surrogate (unpaired) becomes U+FFFD, and
/// any other unit is the character of that number.
pub open spec fn utf16_decoded(units: Seq<u16>) -> Seq<char>
    decreases units.len(),
{
    if units.len() == 0 {
        Seq::empty()
    } else {
        let u = units[0] as int;
        if 0xD800 <= u < 0xDC00 && units.len() >= 2 && 0xDC00 <= units[1] < 0xE000 {
            seq![(0x10000 + (u - 0xD800) * 0x400 + (units[1] - 0xDC00)) as char] + utf16_decoded(
                units.subrange(2, units.len() as int),
            )
        } else if 0xD800 <= u < 0xE000 {
            seq!['\u{FFFD}'] + utf16_decoded(units.drop_first())
        } else {
            seq![u as char] + utf16_decoded(units.drop_first())
        }
    }
}

/// `String::from_utf16_lossy`: the units decoded as UTF-16, each unpaired
/// surrogate replaced by U+FFFD.
#[verifier::external_body]
fn from_utf16_lossy(units: &Vec<u16>) -> (r: String)
    ensures
        r@ == utf16_decoded(units@),
{
    String::from_utf16_lossy(units.as_slice())
}

/// A name without its `;1` version suffix, and without the dot of an
/// empty extension.
pub open spec fn version_stripped(name: Seq<char>) -> Seq<char> {
    let semi = first_semicolon(name, 0);
    let base = name.take(semi);
    if base.len() > 0 && base.last() == '.' {
        base.drop_last()
    } else {
        base
    }
}

/// The index of the first `;` at or after `i`, or the length.
pub open spec fn first_semicolon(name: Seq<char>, i: int) -> int
    decreases name.len() - i,
{
    if i < 0 || i >= name.len() {
        name.len() as int
    } else if name[i] == ';' {
        i
    } else {
        first_semicolon(name, i + 1)
    }
}

/// `name` without its `;1` version suffix and without the dot of an empty
/// extension.
pub fn strip_version(name: &str) -> (r: String)
    ensures
        r@ == version_stripped(name@),
{
    let n = name.unicode_len();
    let mut i: usize = 0;
    while i < n && name.get_char(i) != ';'
        invariant
            n == name@.len(),
            i <= n,
            first_semicolon(name@, 0) == first_semicolon(name@, i as int),
        decreases n - i,
    {
        i = i + 1;
    }
    let end = if i > 0 && name.get_char(i - 1) == '.' {
        i - 1
    } else {
        i
    };
    String::from_str(name.substring_char(0, end))
}

/// The big-endian UTF-16 units of Joliet name bytes (an odd last byte is
/// dropped).
pub open spec fn be_units(raw: Seq<u8>) -> Seq<u16> {
    Seq::new((raw.len() / 2) as nat, |k: int| (raw[2 * k] as int * 256 + raw[2 * k + 1] as int) as u16)
}

/// A name as stored in a directory record.
pub open spec fn decoded_name(raw: Seq<u8>, names: NameSource) -> Seq<char> {
    version_stripped(
        match names {
            NameSource::Joliet => utf16_decoded(be_units(raw)),
            _ => utf8_lossy(raw),
        },
    )
}

fn decode_name(raw: &[u8], names: NameSource) -> (r: String)
    ensures
        r@ == decoded_name(raw@, names),
{
    let s = match names {
        NameSource::Joliet => {
            let mut units: Vec<u16> = Vec::new();
            let mut k: usize = 0;
            while k + 1 < raw.len()
                invariant
                    k % 2 == 0,
                    k <= raw.len(),
                    units.len() == k / 2,
                    forall|j: int| 0 <= j < units.len() ==> #[trigger] units@[j] == (raw@[2 * j] as int
                        * 256 + raw@[2 * j + 1] as int) as u16,
                decreases raw.len() - k,
            {
                units.push(raw[k] as u16 * 256 + raw[k + 1] as u16);
                k = k + 2;
            }
            assert(units@ =~= be_units(raw@));
            from_utf16_lossy(&units)
        },
        _ => from_utf8_lossy(raw),
    };
    strip_version(s.as_str())
}

/// What a record's Rock Ridge entries say about it.
#[derive(Debug)]
pub struct RockRidge {
    pub name: Vec<u8>,
    pub has_name: bool,
    pub symlink: bool,
    /// A relocated directory, listed again at its real place via `CL`.
    pub relocated: bool,
    pub child_link: Option<u32>,
}

/// The bytes `b[from..to]` as a vector.
fn slice_vec(b: &Vec<u8>, from: usize, to: usize) -> (r: Vec<u8>)
    requires
        from <= to <= b.len(),
    ensures
        r@ == b@.subrange(from as int, to as int),
{
    let mut out: Vec<u8> = Vec::new();
    let mut i = from;
    while i < to
        invariant
            from <= i <= to <= b.len(),
            out@ == b@.subrange(from as int, i as int),
        decreases to - i,
    {
        out.push(b[i]);
        i = i + 1;
        assert(out@ =~= b@.subrange(from as int, i as int));
    }
    out
}

/// The size a relocated directory's first sector gives in its "."
/// record; `Err` where there is no record.
pub open spec fn spec_dir_size(sector: Seq<u8>) -> Result<u32, ()> {
    match spec_parse_record(sector, 0) {
        Some(rec) => Ok(rec.size),
        None => Err(()),
    }
}

/// The error is the one for a broken relocated directory.
pub open spec fn dir_size_text<T>(r: Result<T, IsoError>) -> bool {
    r matches Err(IsoError::Invalid(m)) && m@ == "broken relocated directory"@
}

/// The size of a relocated directory, from its first sector.
pub fn dir_size_from(sector: &Vec<u8>) -> (r: Result<u32, IsoError>)
    ensures
        match spec_dir_size(sector@) {
            Ok(n) => r == Ok::<u32, IsoError>(n),
            Err(()) => dir_size_text(r),
        },
{
    match parse_record(sector, 0) {
        Some(rec) => Ok(rec.size),
        None => Err(IsoError::Invalid(String::from_str("broken relocated directory"))),
    }
}

/// What a `RockRidge` holds, as plain values: the name bytes, whether a
/// name was given, symlink, relocated, and the child link.
pub open spec fn rr_view(rr: RockRidge) -> (Seq<u8>, bool, bool, bool, Option<u32>) {
    (rr.name@, rr.has_name, rr.symlink, rr.relocated, rr.child_link)
}

/// The effect of the SUSP entry at `pos`, `len` bytes long (`len >= 4`):
/// the new state, the continuation area so far, and whether the area
/// ends there (`ST`).
pub open spec fn susp_entry(
    area: Seq<u8>,
    pos: int,
    len: int,
    st: (Seq<u8>, bool, bool, bool, Option<u32>),
    cont: Option<(u32, u32, u32)>,
) -> ((Seq<u8>, bool, bool, bool, Option<u32>), Option<(u32, u32, u32)>, bool) {
    let d0 = pos + 4;
    let d1 = pos + len;
    let dlen = len - 4;
    let a = area[pos];
    let b = area[pos + 1];
    if a == 0x4E && b == 0x4D && dlen > 0 {
        // NM: flags 0x02 and 0x04 mark "." and "..".
        if area[d0] & 0x06 == 0 {
            ((st.0 + area.subrange(d0 + 1, d1), true, st.2, st.3, st.4), cont, false)
        } else {
            (st, cont, false)
        }
    } else if a == 0x53 && b == 0x4C {
        ((st.0, st.1, true, st.3, st.4), cont, false)
    } else if a == 0x52 && b == 0x45 {
        ((st.0, st.1, st.2, true, st.4), cont, false)
    } else if a == 0x43 && b == 0x4C && dlen >= 4 {
        ((st.0, st.1, st.2, st.3, Some(le_u32_at(area, d0) as u32)), cont, false)
    } else if a == 0x50 && b == 0x58 && dlen >= 4 {
        if (le_u32_at(area, d0) as u32) & 0o170000 == 0o120000 {
            ((st.0, st.1, true, st.3, st.4), cont, false)
        } else {
            (st, cont, false)
        }
    } else if a == 0x43 && b == 0x45 && dlen >= 20 {
        (
            st,
            Some(
                (
                    le_u32_at(area, d0) as u32,
                    le_u32_at(area, d0 + 8) as u32,
                    le_u32_at(area, d0 + 16) as u32,
                ),
            ),
            false,
        )
    } else if a == 0x53 && b == 0x54 {
        (st, cont, true)
    } else {
        (st, cont, false)
    }
}

/// The state after the SUSP entries of `area[pos..end]`, and the last
/// continuation area (`CE`) among them.
pub open spec fn susp_scan(
    area: Seq<u8>,
    pos: int,
    end: int,
    st: (Seq<u8>, bool, bool, bool, Option<u32>),
    cont: Option<(u32, u32, u32)>,
) -> ((Seq<u8>, bool, bool, bool, Option<u32>), Option<(u32, u32, u32)>)
    decreases end - pos,
{
    if pos < 0 || end - pos < 4 {
        (st, cont)
    } else {
        let len = area[pos + 2] as int;
        if len < 4 || len > end - pos {
            (st, cont)
        } else {
            let e = susp_entry(area, pos, len, st, cont);
            if e.2 {
                (e.0, e.1)
            } else {
                susp_scan(area, pos + len, end, e.0, e.1)
            }
        }
    }
}

/// Whether the entries of `area[start..end]` lead on to a continuation
/// area that is followed (`depth` below 16, 1 to 65536 bytes long).
pub open spec fn susp_follows(
    area: Seq<u8>,
    start: int,
    end: int,
    st: (Seq<u8>, bool, bool, bool, Option<u32>),
    depth: int,
) -> bool {
    susp_scan(area, start, end, st, None).1 matches Some((_, _, l)) && depth < 16 && 0 < l <= 65536
}

/// What the Rock Ridge state `st0` becomes through the entries of
/// `area[start..end]` and, where a continuation area is followed, those of
/// the bytes of `img` it names in turn; `None` where a followed area lies
/// beyond the end of the image.
pub open spec fn susp_full(
    img: Seq<u8>,
    st0: (Seq<u8>, bool, bool, bool, Option<u32>),
    area: Seq<u8>,
    start: int,
    end: int,
    depth: int,
) -> Option<(Seq<u8>, bool, bool, bool, Option<u32>)>
    decreases 16 - depth,
{
    let s = susp_scan(area, start, end, st0, None);
    if depth < 16 && susp_follows(area, start, end, st0, depth) {
        let (block, offset, len) = s.1.unwrap();
        let at = block * 2048 + offset;
        if at + len <= img.len() {
            susp_full(img, s.0, img.subrange(at, at + len), 0, len as int, depth + 1)
        } else {
            None
        }
    } else {
        Some(s.0)
    }
}

/// Reads the SUSP entries of `area[start..end]` into `rr`, up to an `ST`
/// entry or one that doesn't fit; gives the last continuation area named.
pub fn scan_susp(area: &Vec<u8>, start: usize, end: usize, rr: &mut RockRidge) -> (cont: Option<(u32, u32, u32)>)
    requires
        start <= end <= area.len(),
    ensures
        (rr_view(*final(rr)), cont) == susp_scan(area@, start as int, end as int, rr_view(*old(rr)), None),
{
    let ghost goal = susp_scan(area@, start as int, end as int, rr_view(*rr), None);
    let mut continuation: Option<(u32, u32, u32)> = None;
    let mut pos = start;
    let mut stop = false;
    while !stop && end - pos >= 4
        invariant
            start <= pos <= end <= area.len(),
            !stop ==> goal == susp_scan(area@, pos as int, end as int, rr_view(*rr), continuation),
            stop ==> goal == (rr_view(*rr), continuation),
        decreases end - pos + (if stop { 0int } else { 1int }),
    {
        let len = area[pos + 2] as usize;
        if len < 4 || len > end - pos {
            stop = true;
        } else {
            let ghost e = susp_entry(area@, pos as int, len as int, rr_view(*rr), continuation);
            let d0 = pos + 4;
            let d1 = pos + len;
            let dlen = d1 - d0;
            let a = area[pos];
            let b = area[pos + 1];
            if a == 0x4E && b == 0x4D && dlen > 0 {
                // NM: flags 0x02 and 0x04 mark "." and "..".
                if area[d0] & 0x06 == 0 {
                    let ghost name0 = rr.name@;
                    let ghost before = rr_view(*rr);
                    let mut k = d0 + 1;
                    while k < d1
                        invariant
                            d0 < k <= d1,
                            d1 <= end <= area.len(),
                            rr.name@ == name0 + area@.subrange(d0 + 1, k as int),
                            rr.has_name == before.1 && rr.symlink == before.2 && rr.relocated == before.3
                                && rr.child_link == before.4,
                        decreases d1 - k,
                    {
                        rr.name.push(area[k]);
                        k = k + 1;
                        assert(rr.name@ =~= name0 + area@.subrange(d0 + 1, k as int));
                    }
                    rr.has_name = true;
                }
            } else if a == 0x53 && b == 0x4C {
                rr.symlink = true;
            } else if a == 0x52 && b == 0x45 {
                rr.relocated = true;
            } else if a == 0x43 && b == 0x4C && dlen >= 4 {
                rr.child_link = Some(le_u32(area, d0));
            } else if a == 0x50 && b == 0x58 && dlen >= 4 {
                if le_u32(area, d0) & 0o170000 == 0o120000 {
                    rr.symlink = true;
                }
            } else if a == 0x43 && b == 0x45 && dlen >= 20 {
                continuation = Some((le_u32(area, d0), le_u32(area, d0 + 8), le_u32(area, d0 + 16)));
            } else if a == 0x53 && b == 0x54 {
                stop = true;
            }
            assert(rr_view(*rr) == e.0 && continuation == e.1 && stop == e.2);
            if !stop {
                pos = pos + len;
            }
        }
    }
    continuation
}

/// The error is `Invalid` with message `m`.
pub open spec fn invalid_as<T>(r: Result<T, IsoError>, m: Seq<char>) -> bool {
    r matches Err(IsoError::Invalid(x)) && x@ == m
}

/// The messages a directory can be refused with.
pub open spec fn dir_error_text(m: Seq<char>) -> bool {
    ||| m == "directories nested too deeply"@
    ||| m == "directory loop"@
    ||| m == "too many files"@
    ||| m == "broken relocated directory"@
}

/// The Rock Ridge state of a record before any of its entries is read.
pub open spec fn rr_empty() -> (Seq<u8>, bool, bool, bool, Option<u32>) {
    (Seq::empty(), false, false, false, None)
}

/// What a record of a directory lists, before subdirectories are read.
pub ghost enum Listed {
    /// A directory whose entries are `size` bytes from sector `extent`,
    /// or, where Rock Ridge relocated it (`CL`), from sector `link` on.
    Dir { name: Seq<char>, date: IsoDate, extent: u32, size: u32, link: Option<u32> },
    /// A file made of `extents`, in record order.
    File { name: Seq<char>, date: IsoDate, extents: Seq<Extent> },
}

/// The name bytes of record `rec` in `data`.
pub open spec fn raw_name(data: Seq<u8>, rec: Record) -> Seq<u8> {
    data.subrange(rec.name_start as int, rec.name_start + rec.name_len)
}

/// The record is "." or "..", or an associated file: it lists nothing.
pub open spec fn passed_over(data: Seq<u8>, rec: Record) -> bool {
    let raw = raw_name(data, rec);
    (raw.len() == 1 && (raw[0] == 0 || raw[0] == 1)) || rec.flags & FLAG_ASSOCIATED != 0
}

/// Where the Rock Ridge entries of a record's system use area start,
/// `skip` bytes in (SUSP `SP`), or nowhere if the area is shorter.
pub open spec fn susp_from(rec: Record, skip: usize) -> int {
    if skip <= rec.su_end - rec.su_start {
        rec.su_start + skip
    } else {
        rec.su_end as int
    }
}

/// The total length of the extents.
pub open spec fn extents_total(p: Seq<Extent>) -> int
    decreases p.len(),
{
    if p.len() == 0 {
        0
    } else {
        extents_total(p.drop_last()) + p.last().len
    }
}

/// What listing `acc` (nodes so far, extents of a file still pending)
/// becomes with record `rec` of `data`, whose Rock Ridge state is `rr`:
/// "." and "..", associated files, relocated directories and symbolic
/// links add nothing; the name is Rock Ridge's where it gives one, else
/// the record's decoded and without its version; a record marked as
/// having more extents adds its extent to the pending file, which the
/// next record without that mark completes.
pub open spec fn listed_step(
    acc: (Seq<Listed>, Seq<Extent>),
    data: Seq<u8>,
    rec: Record,
    names: NameSource,
    rr: (Seq<u8>, bool, bool, bool, Option<u32>),
) -> (Seq<Listed>, Seq<Extent>) {
    if passed_over(data, rec) || rr.3 || rr.2 {
        acc
    } else {
        let name = if rr.1 {
            utf8_lossy(rr.0)
        } else {
            decoded_name(raw_name(data, rec), names)
        };
        if rec.flags & FLAG_DIR != 0 || rr.4 is Some {
            (
                acc.0.push(Listed::Dir { name, date: rec.date, extent: rec.extent, size: rec.size, link: rr.4 }),
                acc.1,
            )
        } else {
            let p = acc.1.push(Extent { offset: (rec.extent * 2048) as u64, len: rec.size as u64 });
            if rec.flags & FLAG_MULTI_EXTENT != 0 {
                (acc.0, p)
            } else {
                (acc.0.push(Listed::File { name, date: rec.date, extents: p }), Seq::empty())
            }
        }
    }
}

/// The listing of the first `i` records `recs` of `data`, the Rock Ridge
/// state of record `k` being `rrs[k]`.
pub open spec fn listed_upto(
    data: Seq<u8>,
    recs: Seq<Record>,
    names: NameSource,
    rrs: Seq<(Seq<u8>, bool, bool, bool, Option<u32>)>,
    i: int,
) -> (Seq<Listed>, Seq<Extent>)
    decreases i,
{
    if i <= 0 {
        (Seq::empty(), Seq::empty())
    } else {
        listed_step(listed_upto(data, recs, names, rrs, i - 1), data, recs[i - 1], names, rrs[i - 1])
    }
}

/// `rrs` are the Rock Ridge states of the records: with Rock Ridge names,
/// what the entries of each listed record's system use area (and the
/// continuation areas of `img` they lead to) make of an empty state;
/// otherwise empty.
pub open spec fn rr_states(
    img: Seq<u8>,
    data: Seq<u8>,
    recs: Seq<Record>,
    names: NameSource,
    skip: usize,
    rrs: Seq<(Seq<u8>, bool, bool, bool, Option<u32>)>,
) -> bool {
    &&& rrs.len() == recs.len()
    &&& forall|k: int| 0 <= k < recs.len() ==> #[trigger] rr_state_ok(img, data, recs[k], names, skip, rrs[k])
}

/// `st` is the Rock Ridge state of record `rec` of `data` in image `img`.
pub open spec fn rr_state_ok(
    img: Seq<u8>,
    data: Seq<u8>,
    rec: Record,
    names: NameSource,
    skip: usize,
    st: (Seq<u8>, bool, bool, bool, Option<u32>),
) -> bool {
    if names == NameSource::RockRidge && !passed_over(data, rec) {
        susp_full(img, rr_empty(), data, susp_from(rec, skip), rec.su_end as int, 0) == Some(st)
    } else {
        st == rr_empty()
    }
}

/// Node `n` is what `l` lists: the same name and date, and for a file the
/// same extents, with their total as its size.
pub open spec fn node_fits(n: IsoNode, l: Listed) -> bool {
    match (n, l) {
        (IsoNode::Dir { name, date, .. }, Listed::Dir { name: ln, date: ld, .. }) => name@ == ln && date == ld,
        (IsoNode::File { name, date, size, extents }, Listed::File { name: ln, date: ld, extents: le }) => {
            &&& name@ == ln
            &&& date == ld
            &&& extents@ == le
            &&& size == extents_total(le)
        },
        _ => false,
    }
}

/// The nodes are, one for one, what the listing lists.
pub open spec fn nodes_fit(v: Seq<IsoNode>, ls: Seq<Listed>) -> bool {
    v.len() == ls.len() && forall|k: int| 0 <= k < v.len() ==> node_fits(#[trigger] v[k], ls[k])
}

/// The data of the directory at sector `extent`, `size` bytes long.
pub open spec fn dir_data(img: Seq<u8>, extent: u32, size: u32) -> Seq<u8> {
    img.subrange(extent * 2048, extent * 2048 + size)
}

/// Where the entries of listed directory `l` are read: from the sector
/// its `CL` entry names, sized by the "." record there, else from its own
/// extent and size.
pub open spec fn sub_dir(img: Seq<u8>, l: Listed) -> (u32, u32) {
    match l {
        Listed::Dir { extent, size, link, .. } => match link {
            Some(b) => (
                b,
                match spec_dir_size(iso_sector(img, b as int)) {
                    Ok(n) => n,
                    Err(_) => 0,
                },
            ),
            None => (extent, size),
        },
        Listed::File { .. } => (0, 0),
    }
}

/// The nodes `v` are those of the directory at sector `extent`, `size`
/// bytes long, in `img`, with names from `names` and `skip` bytes before
/// each record's Rock Ridge entries: one for each record listed, in
/// record order, and each subdirectory holds the nodes of the directory
/// its record leads to.
pub open spec fn dir_fits(img: Seq<u8>, names: NameSource, skip: usize, extent: u32, size: u32, v: Seq<IsoNode>) -> bool
    decreases v, v.len() + 1,
{
    let data = dir_data(img, extent, size);
    let recs = records_from(data, 0);
    exists|rrs: Seq<(Seq<u8>, bool, bool, bool, Option<u32>)>|
        #[trigger] rr_states(img, data, recs, names, skip, rrs) && nodes_fit(
            v,
            listed_upto(data, recs, names, rrs, recs.len() as int).0,
        ) && subtrees_fit(img, names, skip, v, listed_upto(data, recs, names, rrs, recs.len() as int).0, v.len())
}

/// The first `n` nodes `v`, listed as `ls`: each directory holds the
/// nodes of the directory its listing leads to.
pub open spec fn subtrees_fit(img: Seq<u8>, names: NameSource, skip: usize, v: Seq<IsoNode>, ls: Seq<Listed>, n: nat) -> bool
    decreases v, n,
{
    if n == 0 || n > v.len() {
        true
    } else {
        subtrees_fit(img, names, skip, v, ls, (n - 1) as nat) && subtree_fits(img, names, skip, v[n - 1], ls[n - 1])
    }
}

/// Node `n`, listed as `l`: a directory holds the nodes of the directory
/// `l` leads to.
pub open spec fn subtree_fits(img: Seq<u8>, names: NameSource, skip: usize, n: IsoNode, l: Listed) -> bool
    decreases n, 0nat,
{
    match n {
        IsoNode::Dir { children, .. } => dir_fits(img, names, skip, sub_dir(img, l).0, sub_dir(img, l).1, children@),
        IsoNode::File { .. } => true,
    }
}

proof fn lemma_subtrees_fit(img: Seq<u8>, names: NameSource, skip: usize, v: Seq<IsoNode>, ls: Seq<Listed>, n: nat)
    requires
        n <= v.len(),
        forall|k: int| 0 <= k < n ==> #[trigger] subtree_fits(img, names, skip, v[k], ls[k]),
    ensures
        subtrees_fit(img, names, skip, v, ls, n),
    decreases n,
{
    if n > 0 {
        lemma_subtrees_fit(img, names, skip, v, ls, (n - 1) as nat);
        assert(subtree_fits(img, names, skip, v[n - 1], ls[n - 1]));
        assert(subtrees_fit(img, names, skip, v, ls, (n - 1) as nat));
        reveal_with_fuel(subtrees_fit, 2);
    }
}

proof fn lemma_dir_fits_intro(
    img: Seq<u8>,
    names: NameSource,
    skip: usize,
    extent: u32,
    size: u32,
    v: Seq<IsoNode>,
    rrs: Seq<(Seq<u8>, bool, bool, bool, Option<u32>)>,
)
    requires
        rr_states(img, dir_data(img, extent, size), records_from(dir_data(img, extent, size), 0), names, skip, rrs),
        nodes_fit(
            v,
            listed_upto(
                dir_data(img, extent, size),
                records_from(dir_data(img, extent, size), 0),
                names,
                rrs,
                records_from(dir_data(img, extent, size), 0).len() as int,
            ).0,
        ),
        forall|k: int|
            0 <= k < v.len() ==> #[trigger] subtree_fits(
                img,
                names,
                skip,
                v[k],
                listed_upto(
                    dir_data(img, extent, size),
                    records_from(dir_data(img, extent, size), 0),
                    names,
                    rrs,
                    records_from(dir_data(img, extent, size), 0).len() as int,
                ).0[k],
            ),
    ensures
        dir_fits(img, names, skip, extent, size, v),
{
    let data = dir_data(img, extent, size);
    let recs = records_from(data, 0);
    let ls = listed_upto(data, recs, names, rrs, recs.len() as int).0;
    lemma_subtrees_fit(img, names, skip, v, ls, v.len());
    assert(rr_states(img, data, recs, names, skip, rrs) && nodes_fit(v, ls) && subtrees_fit(img, names, skip, v, ls, v.len()));
}

proof fn lemma_listed_prefix(
    data: Seq<u8>,
    recs: Seq<Record>,
    names: NameSource,
    a: Seq<(Seq<u8>, bool, bool, bool, Option<u32>)>,
    b: Seq<(Seq<u8>, bool, bool, bool, Option<u32>)>,
    i: int,
)
    requires
        i <= a.len(),
        i <= b.len(),
        forall|k: int| 0 <= k < i ==> a[k] == b[k],
    ensures
        listed_upto(data, recs, names, a, i) == listed_upto(data, recs, names, b, i),
    decreases i,
{
    if i > 0 {
        lemma_listed_prefix(data, recs, names, a, b, i - 1);
    }
}

proof fn lemma_listed_next(
    data: Seq<u8>,
    recs: Seq<Record>,
    names: NameSource,
    rrs: Seq<(Seq<u8>, bool, bool, bool, Option<u32>)>,
    x: (Seq<u8>, bool, bool, bool, Option<u32>),
    i: int,
)
    requires
        rrs.len() == i,
        0 <= i,
    ensures
        listed_upto(data, recs, names, rrs.push(x), i + 1) == listed_step(
            listed_upto(data, recs, names, rrs, i),
            data,
            recs[i],
            names,
            x,
        ),
        listed_upto(data, recs, names, rrs.push(x), i) == listed_upto(data, recs, names, rrs, i),
{
    lemma_listed_prefix(data, recs, names, rrs.push(x), rrs, i);
}

proof fn lemma_fit_push(v: Seq<IsoNode>, ls: Seq<Listed>, n: IsoNode, l: Listed)
    requires
        nodes_fit(v, ls),
        node_fits(n, l),
    ensures
        nodes_fit(v.push(n), ls.push(l)),
{
    assert forall|k: int| 0 <= k < v.len() + 1 implies node_fits(#[trigger] v.push(n)[k], ls.push(l)[k]) by {
        if k < v.len() {
            assert(v.push(n)[k] == v[k]);
        }
    }
}

/// Reads a directory tree, keeping count of what it has seen.
struct Reader {
    names: NameSource,
    /// Bytes to skip at the start of every system use area (SUSP `SP`).
    susp_skip: usize,
    symlinks_skipped: usize,
    nodes: usize,
    /// The directory extents read so far.
    visited: HashSet<u32>,
}

/// How deep a node's directories nest (a file is 0 deep).
pub open spec fn height(n: IsoNode) -> nat
    decreases n,
{
    match n {
        IsoNode::File { .. } => 0,
        IsoNode::Dir { children, .. } => 1 + max_height(children@),
    }
}

/// The deepest nesting among the nodes.
pub open spec fn max_height(s: Seq<IsoNode>) -> nat
    decreases s,
{
    if s.len() == 0 {
        0
    } else {
        let a = max_height(s.subrange(0, s.len() - 1));
        let b = height(s[s.len() - 1]);
        if a >= b { a } else { b }
    }
}

impl Reader {
    /// Reads the Rock Ridge entries of a system use area
    /// `area[start..end]` into `rr`, following a continuation area at
    /// most 16 deep.
    fn susp<S: IsoSource>(&mut self, src: &mut S, area: &Vec<u8>, start: usize, end: usize, rr: &mut RockRidge, depth: usize) -> (r: Result<(), IsoError>)
        requires
            start <= end <= area.len(),
            depth <= 16,
        ensures
            final(src).image() == old(src).image(),
            final(src).describes_image() == old(src).describes_image(),
            final(self).nodes == old(self).nodes,
            final(self).visited@ == old(self).visited@,
            final(self).names == old(self).names,
            final(self).susp_skip == old(self).susp_skip,
            !susp_follows(area@, start as int, end as int, rr_view(*old(rr)), depth as int) ==> r is Ok,
            r is Ok && old(src).describes_image() ==> susp_full(old(src).image(), rr_view(*old(rr)), area@, start as int, end as int, depth as int)
                == Some(rr_view(*final(rr))),
            r is Err ==> r matches Err(IsoError::Io(_)),
        decreases 16 - depth,
    {
        let ghost st0 = rr_view(*rr);
        let continuation = scan_susp(area, start, end, rr);
        let ghost st1 = rr_view(*rr);
        match continuation {
            Some((block, offset, len)) => {
                if depth < 16 && len > 0 && len <= 65536 {
                    let at = block as u64 * 2048 + offset as u64;
                    let more = match src.read_at(at, len as usize) {
                        Ok(m) => m,
                        Err(e) => return Err(IsoError::Io(e)),
                    };
                    let ghost img = old(src).image();
                    assert(old(src).describes_image() ==> more@ == img.subrange(at as int, at + len));
                    let r = self.susp(src, &more, 0, more.len(), rr, depth + 1);
                    assert(susp_scan(area@, start as int, end as int, st0, None) == (st1, continuation));
                    return r;
                }
            },
            None => {},
        }
        Ok(())
    }

    /// Size of the directory whose data starts at `extent`, from its "."
    /// record.
    fn dir_size_at<S: IsoSource>(&self, src: &mut S, extent: u32) -> (r: Result<u32, IsoError>)
        ensures
            final(src).image() == old(src).image(),
            final(src).describes_image() == old(src).describes_image(),
            r is Ok || (r matches Err(IsoError::Io(_))) || dir_size_text(r),
            old(src).describes_image() ==> (r matches Ok(n) ==> spec_dir_size(iso_sector(old(src).image(), extent as int)) == Ok::<u32, ()>(n)),
    {
        let sector = match src.read_at(extent as u64 * 2048, 2048) {
            Ok(s) => s,
            Err(e) => return Err(IsoError::Io(e)),
        };
        let r = dir_size_from(&sector);
        assert(r matches Ok(n) ==> spec_dir_size(sector@) == Ok::<u32, ()>(n));
        r
    }

    /// The nodes of the directory at `extent`, `size` bytes long, nested
    /// `depth` deep.
    fn dir<S: IsoSource>(&mut self, src: &mut S, extent: u32, size: u32, depth: usize) -> (r: Result<Vec<IsoNode>, IsoError>)
        requires
            old(self).nodes <= MAX_NODES,
        ensures
            final(src).image() == old(src).image(),
            final(src).describes_image() == old(src).describes_image(),
            old(self).nodes <= final(self).nodes <= MAX_NODES,
            old(self).visited@.subset_of(final(self).visited@),
            old(self).visited@.contains(extent) ==> r is Err,
            depth > MAX_DEPTH ==> r is Err,
            r matches Ok(v) ==> depth + max_height(v@) <= MAX_DEPTH + 1,
            depth > MAX_DEPTH ==> invalid_as(r, "directories nested too deeply"@),
            depth <= MAX_DEPTH && old(self).visited@.contains(extent) ==> invalid_as(r, "directory loop"@),
            depth <= MAX_DEPTH && !old(self).visited@.contains(extent) ==> final(self).visited@.contains(extent),
            r matches Err(IsoError::Invalid(m)) ==> dir_error_text(m@),
            r matches Ok(v) ==> old(self).nodes + v.len() <= final(self).nodes,
            old(src).describes_image() ==> (r matches Ok(v) ==> dir_fits(old(src).image(), old(self).names, old(self).susp_skip, extent, size, v@)),
            final(self).names == old(self).names,
            final(self).susp_skip == old(self).susp_skip,
        decreases MAX_DEPTH + 1 - depth,
    {
        if depth > MAX_DEPTH {
            return Err(IsoError::Invalid(String::from_str("directories nested too deeply")));
        }
        if !self.visited.insert(extent) {
            return Err(IsoError::Invalid(String::from_str("directory loop")));
        }
        let data = match src.read_at(extent as u64 * 2048, size as usize) {
            Ok(d) => d,
            Err(e) => return Err(IsoError::Io(e)),
        };
        let ghost img = old(src).image();
        let ghost flag = old(src).describes_image();
        assert(flag ==> data@ == dir_data(img, extent, size));
        let recs = records(&data);
        let ghost names = self.names;
        let ghost skip = self.susp_skip;
        let ghost mut rrs: Seq<(Seq<u8>, bool, bool, bool, Option<u32>)> = Seq::empty();
        let mut out: Vec<IsoNode> = Vec::new();
        let mut pending: Vec<Extent> = Vec::new();
        let mut pending_total: u64 = 0;
        let mut i: usize = 0;
        while i < recs.len()
            invariant
                i <= recs.len(),
                forall|k: int| 0 <= k < recs.len() ==> #[trigger] recs@[k].su_end <= data.len(),
                forall|k: int| 0 <= k < recs.len() ==> #[trigger] recs@[k].name_start + recs@[k].name_len <= recs@[k].su_end
                    && recs@[k].su_start <= recs@[k].su_end,
                old(self).nodes <= self.nodes <= MAX_NODES,
                old(self).visited@.subset_of(self.visited@),
                depth <= MAX_DEPTH,
                depth + max_height(out@) <= MAX_DEPTH + 1,
                pending.len() <= self.nodes,
                old(self).nodes + out.len() + pending.len() <= self.nodes,
                self.names == old(self).names,
                self.names == names,
                self.susp_skip == skip,
                skip == old(self).susp_skip,
                self.visited@.contains(extent),
                !old(self).visited@.contains(extent),
                pending_total <= pending.len() * 0xFFFF_FFFF,
                src.image() == old(src).image(),
                src.describes_image() == flag,
                img == old(src).image(),
                flag == old(src).describes_image(),
                flag ==> data@ == dir_data(img, extent, size),
                recs@ == records_from(data@, 0),
                rrs.len() == i,
                flag ==> forall|k: int| 0 <= k < i ==> #[trigger] rr_state_ok(img, data@, recs@[k], names, skip, rrs[k]),
                nodes_fit(out@, listed_upto(data@, recs@, names, rrs, i as int).0),
                flag ==> forall|k: int|
                    0 <= k < out@.len() ==> #[trigger] subtree_fits(
                        img,
                        names,
                        skip,
                        out@[k],
                        listed_upto(data@, recs@, names, rrs, i as int).0[k],
                    ),
                pending@ == listed_upto(data@, recs@, names, rrs, i as int).1,
                pending_total == extents_total(pending@),
            decreases recs.len() - i,
        {
            let rec = recs[i];
            proof {
                assert(recs@[i as int].su_end <= data.len());
            }
            let raw = slice_vec(&data, rec.name_start, rec.name_start + rec.name_len);
            let dot = raw.len() == 1 && (raw[0] == 0 || raw[0] == 1);
            if dot || rec.flags & FLAG_ASSOCIATED != 0 {
                proof {
                    assert(passed_over(data@, rec));
                    lemma_listed_next(data@, recs@, names, rrs, rr_empty(), i as int);
                    let ghost old_rrs = rrs;
                    rrs = rrs.push(rr_empty());
                    assert(rr_state_ok(img, data@, recs@[i as int], names, skip, rrs[i as int]));
                    if flag {
                        assert forall|k: int| 0 <= k < i + 1 implies #[trigger] rr_state_ok(img, data@, recs@[k], names, skip, rrs[k]) by {
                            if k < i {
                                assert(rrs[k] == old_rrs[k]);
                            }
                        }
                    }
                }
                i = i + 1;
                continue;
            }
            assert(!passed_over(data@, rec));
            if self.nodes >= MAX_NODES {
                return Err(IsoError::Invalid(String::from_str("too many files")));
            }
            self.nodes = self.nodes + 1;
            let mut rr = RockRidge { name: Vec::new(), has_name: false, symlink: false, relocated: false, child_link: None };
            assert(rr_view(rr) == rr_empty());
            match self.names {
                NameSource::RockRidge => {
                    let from = if self.susp_skip <= rec.su_end - rec.su_start {
                        rec.su_start + self.susp_skip
                    } else {
                        rec.su_end
                    };
                    assert(from == susp_from(rec, skip));
                    match self.susp(src, &data, from, rec.su_end, &mut rr, 0) {
                        Ok(()) => {},
                        Err(e) => return Err(e),
                    }
                    assert(flag ==> rr_state_ok(img, data@, rec, names, skip, rr_view(rr)));
                },
                _ => {
                    assert(rr_state_ok(img, data@, rec, names, skip, rr_view(rr)));
                },
            }
            let ghost st = rr_view(rr);
            proof {
                lemma_listed_next(data@, recs@, names, rrs, st, i as int);
                let ghost old_rrs = rrs;
                rrs = rrs.push(st);
                assert(rrs[i as int] == st);
                if flag {
                    assert forall|k: int| 0 <= k < i + 1 implies #[trigger] rr_state_ok(img, data@, recs@[k], names, skip, rrs[k]) by {
                        if k < i {
                            assert(rrs[k] == old_rrs[k]);
                        }
                    }
                }
            }
            let ghost before = listed_upto(data@, recs@, names, rrs, i as int);
            let ghost after = listed_upto(data@, recs@, names, rrs, i + 1);
            assert(after == listed_step(before, data@, rec, names, st));
            if rr.relocated {
                assert(after == before);
                i = i + 1;
                continue;
            }
            if rr.symlink {
                if self.symlinks_skipped < usize::MAX {
                    self.symlinks_skipped = self.symlinks_skipped + 1;
                }
                assert(after == before);
                i = i + 1;
                continue;
            }
            assert(raw@ == raw_name(data@, rec));
            let name = if rr.has_name {
                from_utf8_lossy(rr.name.as_slice())
            } else {
                decode_name(raw.as_slice(), self.names)
            };
            if rec.flags & FLAG_DIR != 0 || rr.child_link.is_some() {
                let (ext, len) = match rr.child_link {
                    Some(block) => {
                        let l = match self.dir_size_at(src, block) {
                            Ok(l) => l,
                            Err(e) => return Err(e),
                        };
                        (block, l)
                    },
                    None => (rec.extent, rec.size),
                };
                let ghost l = Listed::Dir { name: name@, date: rec.date, extent: rec.extent, size: rec.size, link: st.4 };
                assert(flag ==> (ext, len) == sub_dir(img, l));
                let children = match self.dir(src, ext, len, depth + 1) {
                    Ok(c) => c,
                    Err(e) => return Err(e),
                };
                let ghost prev = out@;
                let ghost ch = children@;
                let node = IsoNode::Dir { name, date: rec.date, children };
                assert(height(node) == 1 + max_height(ch));
                assert(after.0 == before.0.push(l));
                assert(node_fits(node, l));
                assert(flag ==> subtree_fits(img, names, skip, node, l));
                out.push(node);
                proof {
                    assert(out@.subrange(0, out@.len() - 1) =~= prev);
                    assert(out@[out@.len() - 1] == node);
                    lemma_fit_push(prev, before.0, node, l);
                    assert(out@ =~= prev.push(node));
                    if flag {
                        assert forall|k: int| 0 <= k < out@.len() implies #[trigger] subtree_fits(
                            img,
                            names,
                            skip,
                            out@[k],
                            after.0[k],
                        ) by {
                            if k < prev.len() {
                                assert(out@[k] == prev[k]);
                                assert(after.0[k] == before.0[k]);
                            }
                        }
                    }
                }
            } else {
                let e = Extent { offset: rec.extent as u64 * 2048, len: rec.size as u64 };
                let ghost p0 = pending@;
                pending.push(e);
                pending_total = pending_total + rec.size as u64;
                proof {
                    assert(pending@.drop_last() =~= p0);
                    assert(pending@ =~= p0.push(e));
                }
                if rec.flags & FLAG_MULTI_EXTENT != 0 {
                    assert(after == (before.0, pending@));
                    i = i + 1;
                    continue;
                }
                let extents = pending;
                pending = Vec::new();
                let total = pending_total;
                pending_total = 0;
                let ghost prev = out@;
                let ghost l = Listed::File { name: name@, date: rec.date, extents: extents@ };
                assert(after == (before.0.push(l), Seq::<Extent>::empty()));
                let node = IsoNode::File { name, date: rec.date, size: total, extents };
                assert(height(node) == 0);
                assert(node_fits(node, l));
                out.push(node);
                proof {
                    assert(out@.subrange(0, out@.len() - 1) =~= prev);
                    assert(out@[out@.len() - 1] == node);
                    lemma_fit_push(prev, before.0, node, l);
                    assert(out@ =~= prev.push(node));
                    assert(pending@ =~= Seq::<Extent>::empty());
                    if flag {
                        assert forall|k: int| 0 <= k < out@.len() implies #[trigger] subtree_fits(
                            img,
                            names,
                            skip,
                            out@[k],
                            after.0[k],
                        ) by {
                            if k < prev.len() {
                                assert(out@[k] == prev[k]);
                                assert(after.0[k] == before.0[k]);
                            }
                        }
                    }
                }
            }
            i = i + 1;
        }
        proof {
            if flag {
                let ls = listed_upto(data@, recs@, names, rrs, recs@.len() as int).0;
                assert(i == recs@.len());
                assert(rr_states(img, data@, recs@, names, skip, rrs));
                assert(nodes_fit(out@, ls));
                assert(forall|k: int| 0 <= k < out@.len() ==> #[trigger] subtree_fits(img, names, skip, out@[k], ls[k]));
                assert(recs@ == records_from(dir_data(img, extent, size), 0));
                lemma_dir_fits_intro(img, names, skip, extent, size, out@, rrs);
            }
        }
        Ok(out)
    }
}

/// What a volume descriptor (a 2048-byte sector from sector 16 on) is.
#[derive(Debug, Clone, Copy, PartialEq, Eq, Structural)]
pub enum Descriptor {
    /// The primary ISO 9660 descriptor (`CD001`, type 1).
    Primary,
    /// A Joliet supplementary descriptor (`CD001`, type 2, UCS-2 escape).
    Joliet,
    /// Another `CD001` descriptor, such as the terminator.
    OtherIso,
    /// A UDF descriptor (`NSR02` or `NSR03`).
    Udf,
    /// A descriptor between ISO 9660 and UDF ones (`BEA01`, `TEA01`,
    /// `BOOT2`, `CDW02`).
    Skip,
    /// Anything else: the descriptors end.
    End,
}

/// Bytes 1..6 of the descriptor are `a b c d e`.
pub open spec fn tag_is(vd: Seq<u8>, a: u8, b: u8, c: u8, d: u8, e: u8) -> bool {
    vd[1] == a && vd[2] == b && vd[3] == c && vd[4] == d && vd[5] == e
}

fn tag_is_exec(vd: &Vec<u8>, a: u8, b: u8, c: u8, d: u8, e: u8) -> (r: bool)
    requires
        vd.len() >= 6,
    ensures
        r == tag_is(vd@, a, b, c, d, e),
{
    vd[1] == a && vd[2] == b && vd[3] == c && vd[4] == d && vd[5] == e
}

/// What the descriptor in `vd` is.
pub open spec fn spec_descriptor(vd: Seq<u8>) -> Descriptor {
    if vd.len() < 2048 {
        Descriptor::End
    } else if tag_is(vd, 0x43, 0x44, 0x30, 0x30, 0x31) {
        if vd[0] == 1 {
            Descriptor::Primary
        } else if vd[0] == 2 && vd[88] == 0x25 && vd[89] == 0x2F && (vd[90] == 0x40 || vd[90] == 0x43
            || vd[90] == 0x45) {
            Descriptor::Joliet
        } else {
            Descriptor::OtherIso
        }
    } else if tag_is(vd, 0x4E, 0x53, 0x52, 0x30, 0x32) || tag_is(vd, 0x4E, 0x53, 0x52, 0x30, 0x33) {
        Descriptor::Udf
    } else if tag_is(vd, 0x42, 0x45, 0x41, 0x30, 0x31) || tag_is(vd, 0x54, 0x45, 0x41, 0x30, 0x31)
        || tag_is(vd, 0x42, 0x4F, 0x4F, 0x54, 0x32) || tag_is(vd, 0x43, 0x44, 0x57, 0x30, 0x32) {
        Descriptor::Skip
    } else {
        Descriptor::End
    }
}

pub fn descriptor(vd: &Vec<u8>) -> (r: Descriptor)
    ensures
        r == spec_descriptor(vd@),
{
    if vd.len() < 2048 {
        Descriptor::End
    } else if tag_is_exec(vd, 0x43, 0x44, 0x30, 0x30, 0x31) {
        if vd[0] == 1 {
            Descriptor::Primary
        } else if vd[0] == 2 && vd[88] == 0x25 && vd[89] == 0x2F && (vd[90] == 0x40 || vd[90] == 0x43
            || vd[90] == 0x45) {
            Descriptor::Joliet
        } else {
            Descriptor::OtherIso
        }
    } else if tag_is_exec(vd, 0x4E, 0x53, 0x52, 0x30, 0x32) || tag_is_exec(vd, 0x4E, 0x53, 0x52, 0x30, 0x33) {
        Descriptor::Udf
    } else if tag_is_exec(vd, 0x42, 0x45, 0x41, 0x30, 0x31) || tag_is_exec(vd, 0x54, 0x45, 0x41, 0x30, 0x31)
        || tag_is_exec(vd, 0x42, 0x4F, 0x4F, 0x54, 0x32) || tag_is_exec(vd, 0x43, 0x44, 0x57, 0x30, 0x32) {
        Descriptor::Skip
    } else {
        Descriptor::End
    }
}

/// The root directory record of a descriptor (bytes 156..190).
/// What the volume descriptors `vds` (sectors 16, 17, ... in order) give:
/// the first primary descriptor, the last Joliet one, whether a UDF one
/// came before they ended, and whether they ended.
pub open spec fn scan_spec(vds: Seq<Seq<u8>>) -> (Option<Seq<u8>>, Option<Seq<u8>>, bool, bool)
    decreases vds.len(),
{
    if vds.len() == 0 {
        (None, None, false, false)
    } else {
        let s = scan_spec(vds.drop_last());
        let vd = vds.last();
        if s.3 {
            s
        } else {
            match spec_descriptor(vd) {
                Descriptor::Primary => (
                    if s.0 is Some {
                        s.0
                    } else {
                        Some(vd)
                    },
                    s.1,
                    s.2,
                    false,
                ),
                Descriptor::Joliet => (s.0, Some(vd), s.2, false),
                Descriptor::Udf => (s.0, s.1, true, false),
                Descriptor::End => (s.0, s.1, s.2, true),
                _ => s,
            }
        }
    }
}

/// The descriptors an image's volume is read from.
pub struct VolumeDescriptors {
    pub primary: Option<Vec<u8>>,
    pub joliet: Option<Vec<u8>>,
    pub has_udf: bool,
}

pub open spec fn opt_bytes(o: Option<Vec<u8>>) -> Option<Seq<u8>> {
    match o {
        Some(v) => Some(v@),
        None => None,
    }
}

pub open spec fn sectors_view(vds: Seq<Vec<u8>>) -> Seq<Seq<u8>> {
    vds.map_values(|v: Vec<u8>| v@)
}

/// Picks the primary and Joliet descriptors among those read.
pub fn scan_descriptors(vds: &Vec<Vec<u8>>) -> (r: VolumeDescriptors)
    ensures
        opt_bytes(r.primary) == scan_spec(sectors_view(vds@)).0,
        opt_bytes(r.joliet) == scan_spec(sectors_view(vds@)).1,
        r.has_udf == scan_spec(sectors_view(vds@)).2,
        r.primary matches Some(p) ==> p.len() >= 2048,
        r.joliet matches Some(j) ==> j.len() >= 2048,
{
    let ghost all = sectors_view(vds@);
    let mut primary: Option<Vec<u8>> = None;
    let mut joliet: Option<Vec<u8>> = None;
    let mut has_udf = false;
    let mut ended = false;
    let mut i: usize = 0;
    while i < vds.len()
        invariant
            i <= vds.len(),
            all == sectors_view(vds@),
            (opt_bytes(primary), opt_bytes(joliet), has_udf, ended) == scan_spec(all.take(i as int)),
            primary matches Some(p) ==> p.len() >= 2048,
            joliet matches Some(j) ==> j.len() >= 2048,
        decreases vds.len() - i,
    {
        assert(all.take(i + 1).drop_last() =~= all.take(i as int));
        assert(all.take(i + 1).last() == vds@[i as int]@);
        if !ended {
            let vd = &vds[i];
            match descriptor(vd) {
                Descriptor::Primary => {
                    if primary.is_none() {
                        let copy = slice_vec(vd, 0, vd.len());
                        assert(copy@ =~= vd@);
                        primary = Some(copy);
                    }
                },
                Descriptor::Joliet => {
                    let copy = slice_vec(vd, 0, vd.len());
                    assert(copy@ =~= vd@);
                    joliet = Some(copy);
                },
                Descriptor::Udf => {
                    has_udf = true;
                },
                Descriptor::End => {
                    ended = true;
                },
                Descriptor::OtherIso | Descriptor::Skip => {},
            }
        }
        i = i + 1;
    }
    assert(all.take(vds.len() as int) =~= all);
    VolumeDescriptors { primary, joliet, has_udf }
}

fn root_of(vd: &Vec<u8>) -> (r: Result<(u32, u32), IsoError>)
    requires
        vd.len() >= 2048,
    ensures
        match spec_parse_record(vd@.subrange(156, 190), 0) {
            Some(rec) => r == Ok::<(u32, u32), IsoError>((rec.extent, rec.size)),
            None => r matches Err(IsoError::Invalid(m)) && m@ == "broken root directory"@,
        },
{
    let root = slice_vec(vd, 156, 190);
    match parse_record(&root, 0) {
        Some(rec) => Ok((rec.extent, rec.size)),
        None => Err(IsoError::Invalid(String::from_str("broken root directory"))),
    }
}

/// The bytes Rock Ridge's SUSP `SP` entry says to skip, if the root's "."
/// record has one (`SP`, its length and version, then 0xBE 0xEF).
pub open spec fn spec_rock_ridge_skip(root: Seq<u8>) -> Option<usize> {
    match spec_parse_record(root, 0) {
        Some(dot) => {
            let su = root.subrange(dot.su_start as int, dot.su_end as int);
            if su.len() >= 7 && su[0] == 0x53 && su[1] == 0x50 && su[4] == 0xBE && su[5] == 0xEF {
                Some(su[6] as usize)
            } else {
                None
            }
        },
        None => None,
    }
}

fn rock_ridge_skip(root: &Vec<u8>) -> (r: Option<usize>)
    ensures
        r == spec_rock_ridge_skip(root@),
{
    match parse_record(root, 0) {
        Some(dot) => {
            let su = slice_vec(root, dot.su_start, dot.su_end);
            if su.len() >= 7 && su[0] == 0x53 && su[1] == 0x50 && su[4] == 0xBE && su[5] == 0xEF {
                Some(su[6] as usize)
            } else {
                None
            }
        },
        None => None,
    }
}

/// Where an image's names come from, given its root directory's first
/// sector and whether it has a Joliet descriptor: Rock Ridge where the
/// root's "." record announces it, else Joliet, else plain ISO 9660.
pub open spec fn spec_names_of(root: Seq<u8>, joliet: bool) -> NameSource {
    if spec_rock_ridge_skip(root) is Some {
        NameSource::RockRidge
    } else if joliet {
        NameSource::Joliet
    } else {
        NameSource::Iso9660
    }
}

/// What tree `t` takes from volume descriptors `vds` (sectors 16, 17, ...)
/// and the first sector `root` of the primary root directory: the label of
/// the first primary descriptor, trimmed; whether a UDF descriptor came;
/// where the names come from.
pub open spec fn tree_meta(vds: Seq<Seq<u8>>, root: Seq<u8>, t: IsoTree) -> bool {
    let sc = scan_spec(vds);
    &&& sc.0 matches Some(p)
    &&& p.len() >= 72
    &&& t.volume_label@ == trimmed(utf8_lossy(p.subrange(40, 72)))
    &&& t.has_udf == sc.2
    &&& t.names == spec_names_of(root, sc.1 is Some)
}

/// The 2048-byte sector `k` of the image.
pub open spec fn iso_sector(img: Seq<u8>, k: int) -> Seq<u8> {
    img.subrange(k * 2048, k * 2048 + 2048)
}

/// The first `n` sectors of the image from sector 16 on, where the volume
/// descriptors start.
pub open spec fn descriptor_sectors(img: Seq<u8>, n: nat) -> Seq<Seq<u8>> {
    Seq::new(n, |i: int| iso_sector(img, 16 + i))
}

/// The first sector of the root directory that descriptor `vd` names.
pub open spec fn root_sector(img: Seq<u8>, vd: Seq<u8>) -> Seq<u8> {
    match spec_parse_record(vd.subrange(156, 190), 0) {
        Some(rec) => iso_sector(img, rec.extent as int),
        None => Seq::empty(),
    }
}

/// What reading the tree of `img` gives, for the descriptors `vds` read
/// from sector 16 on: "not an ISO 9660 image" exactly where none of them
/// is a primary descriptor; otherwise a tree takes its label, UDF flag
/// and name source from the descriptors and the root's first sector.
pub open spec fn tree_outcome(img: Seq<u8>, vds: Seq<Seq<u8>>, r: Result<IsoTree, IsoError>) -> bool {
    &&& (scan_spec(vds).0 is None <==> invalid_as(r, "not an ISO 9660 image"@))
    &&& r matches Ok(t) ==> {
        &&& scan_spec(vds).0 matches Some(p)
        &&& tree_meta(vds, root_sector(img, p), t)
        &&& dir_fits(img, t.names, tree_root(img, vds).0, tree_root(img, vds).1, tree_root(img, vds).2, t.children@)
    }
}

/// The root directory a tree is read from, for the descriptors `vds` of
/// `img`: the bytes Rock Ridge skips before each record's entries, and
/// the root's sector and size. That is the primary root where Rock Ridge
/// announces itself in it or no Joliet descriptor came, else the Joliet
/// root.
pub open spec fn tree_root(img: Seq<u8>, vds: Seq<Seq<u8>>) -> (usize, u32, u32) {
    let sc = scan_spec(vds);
    let p = sc.0.unwrap();
    let prim = spec_parse_record(p.subrange(156, 190), 0).unwrap();
    match spec_rock_ridge_skip(root_sector(img, p)) {
        Some(skip) => (skip, prim.extent, prim.size),
        None => match sc.1 {
            Some(j) => {
                let jr = spec_parse_record(j.subrange(156, 190), 0).unwrap();
                (0, jr.extent, jr.size)
            },
            None => (0, prim.extent, prim.size),
        },
    }
}

proof fn lemma_not_an_iso_is_its_own_message()
    ensures
        "not an ISO 9660 image"@ != "broken root directory"@,
        !dir_error_text("not an ISO 9660 image"@),
{
    reveal_strlit("not an ISO 9660 image");
    reveal_strlit("broken root directory");
    reveal_strlit("directories nested too deeply");
    reveal_strlit("directory loop");
    reveal_strlit("too many files");
    reveal_strlit("broken relocated directory");
    assert("not an ISO 9660 image"@[0] != "broken root directory"@[0]);
    assert("not an ISO 9660 image"@[0] != "directories nested too deeply"@[0]);
    assert("not an ISO 9660 image"@[0] != "directory loop"@[0]);
    assert("not an ISO 9660 image"@[0] != "too many files"@[0]);
    assert("not an ISO 9660 image"@[0] != "broken relocated directory"@[0]);
}

/// Reads the whole file tree of the ISO 9660 image in `src`: names from
/// Rock Ridge if the image has it, else from Joliet, else plain ISO 9660
/// names. Directories nested more than `MAX_DEPTH` deep, more than
/// `MAX_NODES` entries and a directory read twice (a loop) are refused.
pub fn read_tree<S: IsoSource>(src: &mut S) -> (r: Result<IsoTree, IsoError>)
    ensures
        final(src).image() == old(src).image(),
        final(src).describes_image() == old(src).describes_image(),
        r matches Ok(t) ==> max_height(t.children@) <= MAX_DEPTH + 1,
        old(src).describes_image() ==> exists|n: nat|
            n <= 48 && (n > 0 ==> (16 + n) * 2048 <= old(src).image().len()) && #[trigger] tree_outcome(
                old(src).image(),
                descriptor_sectors(old(src).image(), n),
                r,
            ),
        r matches Err(IsoError::Invalid(m)) ==> m@ == "not an ISO 9660 image"@ || m@
            == "broken root directory"@ || dir_error_text(m@),
{
    let ghost img = src.image();
    let ghost flag = src.describes_image();
    let mut sectors: Vec<Vec<u8>> = Vec::new();
    let mut sector: u64 = 16;
    let mut stop = false;
    while sector < 64 && !stop
        invariant
            16 <= sector <= 64,
            src.image() == img,
            src.describes_image() == flag,
            sectors@.len() == sector - 16,
            flag ==> sectors_view(sectors@) =~= descriptor_sectors(img, (sector - 16) as nat),
            flag ==> (sector > 16 ==> sector * 2048 <= img.len()),
        decreases 64 - sector + (if stop { 0int } else { 1int }),
    {
        match src.read_at(sector * 2048, 2048) {
            Err(_) => {
                stop = true;
            },
            Ok(vd) => {
                if descriptor(&vd) == Descriptor::End {
                    stop = true;
                }
                let ghost prev = sectors@;
                let ghost last = vd@;
                assert(flag ==> last == iso_sector(img, sector as int));
                sectors.push(vd);
                sector = sector + 1;
                proof {
                    if flag {
                        let want = descriptor_sectors(img, (sector - 16) as nat);
                        assert forall|k: int| 0 <= k < sectors@.len() implies #[trigger] sectors_view(sectors@)[k]
                            == want[k] by {
                            if k < prev.len() {
                                assert(sectors@[k] == prev[k]);
                                assert(sectors_view(prev)[k] == descriptor_sectors(img, (sector - 17) as nat)[k]);
                            } else {
                                assert(sectors@[k]@ == last);
                            }
                        }
                        assert(sectors_view(sectors@) =~= want);
                    }
                }
            },
        }
    }
    let ghost vds = sectors_view(sectors@);
    let ghost n = (sector - 16) as nat;
    assert(flag ==> vds == descriptor_sectors(img, n));
    proof {
        lemma_not_an_iso_is_its_own_message();
    }
    let VolumeDescriptors { primary, joliet, has_udf } = scan_descriptors(&sectors);
    let primary = match primary {
        Some(p) => p,
        None => {
            let r = Err(IsoError::Invalid(String::from_str("not an ISO 9660 image")));
            assert(flag ==> tree_outcome(img, descriptor_sectors(img, n), r));
            return r;
        },
    };
    let label_bytes = slice_vec(&primary, 40, 72);
    let volume_label = crate::models::trim_str(from_utf8_lossy(label_bytes.as_slice()).as_str());
    let (p_extent, p_size) = match root_of(&primary) {
        Ok(x) => x,
        Err(e) => {
            assert(flag ==> tree_outcome(img, descriptor_sectors(img, n), Err::<IsoTree, IsoError>(e)));
            return Err(e);
        },
    };
    let root_data = match src.read_at(p_extent as u64 * 2048, 2048) {
        Ok(d) => d,
        Err(e) => {
            assert(flag ==> tree_outcome(img, descriptor_sectors(img, n), Err::<IsoTree, IsoError>(IsoError::Io(e))));
            return Err(IsoError::Io(e));
        },
    };
    assert(flag ==> root_data@ == root_sector(img, primary@));
    let mut reader = Reader {
        names: NameSource::Iso9660,
        susp_skip: 0,
        symlinks_skipped: 0,
        nodes: 0,
        visited: HashSet::new(),
    };
    let (extent, size) = match rock_ridge_skip(&root_data) {
        Some(skip) => {
            reader.names = NameSource::RockRidge;
            reader.susp_skip = skip;
            (p_extent, p_size)
        },
        None => match &joliet {
            Some(vd) => {
                reader.names = NameSource::Joliet;
                match root_of(vd) {
                    Ok(x) => x,
                    Err(e) => {
                        assert(flag ==> tree_outcome(img, descriptor_sectors(img, n), Err::<IsoTree, IsoError>(e)));
                        return Err(e);
                    },
                }
            },
            None => (p_extent, p_size),
        },
    };
    let children = match reader.dir(src, extent, size, 0) {
        Ok(c) => c,
        Err(e) => {
            assert(flag ==> tree_outcome(img, descriptor_sectors(img, n), Err::<IsoTree, IsoError>(e)));
            return Err(e);
        },
    };
    let t = IsoTree {
        volume_label,
        children,
        names: reader.names,
        symlinks_skipped: reader.symlinks_skipped,
        has_udf,
    };
    assert(tree_meta(vds, root_data@, t));
    assert(flag ==> tree_outcome(img, descriptor_sectors(img, n), Ok::<IsoTree, IsoError>(t)));
    Ok(t)
}

} // verus!
