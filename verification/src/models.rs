//! Shared data models for disks, partitions and file systems.
//!
//! Every provider produces these, and the validator, the executors and the
//! USB writer consume them. Sizes and offsets are plain byte counts.
use vstd::prelude::*;

verus! {

/// A size or offset in bytes.
#[derive(Debug, Clone, Copy, PartialEq, Eq, Hash, PartialOrd, Ord, Structural)]
pub struct ByteSize(pub u64);

/// One mebibyte, the alignment grid of every partition.
pub const MIB: u64 = 1048576;

impl ByteSize {
    /// Zero bytes.
    pub fn zero() -> (r: ByteSize)
        ensures
            r.0 == 0,
    {
        ByteSize(0)
    }

    pub fn bytes(self) -> (r: u64)
        ensures
            r == self.0,
    {
        self.0
    }

    /// The sum, or `None` where it does not fit in 64 bits.
    pub fn checked_add(self, other: ByteSize) -> (r: Option<ByteSize>)
        ensures
            self.0 + other.0 <= u64::MAX ==> r == Some(ByteSize((self.0 + other.0) as u64)),
            self.0 + other.0 > u64::MAX ==> r is None,
    {
        match self.0.checked_add(other.0) {
            Some(v) => Some(ByteSize(v)),
            None => None,
        }
    }

    /// The difference, or `None` where `other` is larger.
    pub fn checked_sub(self, other: ByteSize) -> (r: Option<ByteSize>)
        ensures
            other.0 <= self.0 ==> r == Some(ByteSize((self.0 - other.0) as u64)),
            other.0 > self.0 ==> r is None,
    {
        if other.0 <= self.0 {
            Some(ByteSize(self.0 - other.0))
        } else {
            None
        }
    }

    pub fn from_u64(v: u64) -> (r: ByteSize)
        ensures
            r.0 == v,
    {
        ByteSize(v)
    }
}

/// Stable identifier of a disk: the OS device path (`/dev/sda`,
/// `\\.\PhysicalDrive0`) or a fixed name like `mock-disk-0`.
#[derive(Debug, Clone, PartialEq, Eq, Hash)]
pub struct DiskId(pub String);

impl DiskId {
    pub fn from_str(s: &str) -> (r: DiskId)
        ensures
            r.0@ == s@,
    {
        DiskId(String::from_str(s))
    }

    pub fn from_string(s: String) -> (r: DiskId)
        ensures
            r.0@ == s@,
    {
        DiskId(s)
    }

    /// The identifier as text, as the UI and messages show it.
    pub fn to_text(&self) -> (r: String)
        ensures
            r@ == self.0@,
    {
        self.0.clone()
    }
}

/// Identifier of a partition, scoped to its disk: `{disk_id}#{number}`.
#[derive(Debug, Clone, PartialEq, Eq, Hash)]
pub struct PartitionId(pub String);

/// The decimal digits of `n`, most significant first.
pub open spec fn decimal(n: nat) -> Seq<char>
    decreases n,
{
    if n < 10 {
        seq![digit_char(n)]
    } else {
        decimal(n / 10).push(digit_char(n % 10))
    }
}

pub open spec fn digit_char(d: nat) -> char {
    if d == 0 { '0' }
    else if d == 1 { '1' }
    else if d == 2 { '2' }
    else if d == 3 { '3' }
    else if d == 4 { '4' }
    else if d == 5 { '5' }
    else if d == 6 { '6' }
    else if d == 7 { '7' }
    else if d == 8 { '8' }
    else { '9' }
}

/// Appends `c` to `s`.
///
/// Wraps `String::push`, which std documents as appending the given char to
/// the end of the string; the contract says exactly that.
#[verifier::external_body]
pub(crate) fn push_char(s: &mut String, c: char)
    ensures
        final(s)@ == old(s)@.push(c),
{
    s.push(c)
}

pub fn digit(d: u64) -> (c: char)
    requires
        d < 10,
    ensures
        c == digit_char(d as nat),
{
    if d == 0 { '0' }
    else if d == 1 { '1' }
    else if d == 2 { '2' }
    else if d == 3 { '3' }
    else if d == 4 { '4' }
    else if d == 5 { '5' }
    else if d == 6 { '6' }
    else if d == 7 { '7' }
    else if d == 8 { '8' }
    else { '9' }
}

/// Appends the decimal digits of `n` to `out`.
pub fn push_decimal(out: &mut String, n: u64)
    ensures
        final(out)@ == old(out)@ + decimal(n as nat),
    decreases n,
{
    if n < 10 {
        push_char(out, digit(n));
    } else {
        push_decimal(out, n / 10);
        push_char(out, digit(n % 10));
    }
}

/// The decimal text of `n`.
pub fn decimal_string(n: u64) -> (r: String)
    ensures
        r@ == decimal(n as nat),
{
    let mut s = String::new();
    push_decimal(&mut s, n);
    s
}

/// Text of a partition id: the disk id, `#`, the number.
pub open spec fn partition_id_text(disk: Seq<char>, number: nat) -> Seq<char> {
    disk.push('#') + decimal(number)
}

impl PartitionId {
    pub fn new(disk: &DiskId, number: u32) -> (r: PartitionId)
        ensures
            r.0@ == partition_id_text(disk.0@, number as nat),
    {
        let mut s = disk.0.clone();
        push_char(&mut s, '#');
        push_decimal(&mut s, number as u64);
        PartitionId(s)
    }

    pub fn to_text(&self) -> (r: String)
        ensures
            r@ == self.0@,
    {
        self.0.clone()
    }
}

#[derive(Debug, Clone, Copy, PartialEq, Eq, Structural)]
pub enum BusType {
    Sata,
    Nvme,
    Usb,
    Virtual,
    Unknown,
}

#[derive(Debug, Clone, Copy, PartialEq, Eq, Structural)]
pub enum MediaType {
    Hdd,
    Ssd,
    Unknown,
}

#[derive(Debug, Clone, Copy, PartialEq, Eq, Structural)]
pub enum HealthStatus {
    Healthy,
    Warning,
    Failing,
    Unknown,
}

#[derive(Debug, Clone, Copy, PartialEq, Eq, Structural)]
pub enum PartitionTable {
    Gpt,
    Mbr,
    /// No recognized partition table.
    NoTable,
}

/// File systems MoonDisk recognizes.
#[derive(Debug, Clone, Copy, PartialEq, Eq, Structural)]
pub enum FileSystem {
    Ntfs,
    Fat32,
    ExFat,
    Ext2,
    Ext3,
    Ext4,
    Btrfs,
    Xfs,
    LinuxSwap,
    Apfs,
    /// Mac OS Extended (HFS+).
    HfsPlus,
    /// No recognizable file system signature.
    Unformatted,
    /// A file system MoonDisk does not recognize.
    Unknown,
}

/// Whether `c` is white space in the sense of `str::trim`.
pub open spec fn is_space(c: char) -> bool {
    ||| c == ' '
    ||| ('\t' <= c <= '\r')
    ||| c == '\u{85}'
    ||| c == '\u{A0}'
    ||| c == '\u{1680}'
    ||| ('\u{2000}' <= c <= '\u{200A}')
    ||| c == '\u{2028}'
    ||| c == '\u{2029}'
    ||| c == '\u{202F}'
    ||| c == '\u{205F}'
    ||| c == '\u{3000}'
}

pub fn is_space_exec(c: char) -> (r: bool)
    ensures
        r == is_space(c),
{
    c == ' ' || ('\t' <= c && c <= '\r') || c == '\u{85}' || c == '\u{A0}' || c == '\u{1680}'
        || ('\u{2000}' <= c && c <= '\u{200A}') || c == '\u{2028}' || c == '\u{2029}' || c
        == '\u{202F}' || c == '\u{205F}' || c == '\u{3000}'
}

/// Number of leading white-space characters of `s`.
pub open spec fn lead_spaces(s: Seq<char>) -> nat
    decreases s.len(),
{
    if s.len() > 0 && is_space(s[0]) {
        1 + lead_spaces(s.drop_first())
    } else {
        0
    }
}

/// Number of trailing white-space characters of `s`.
pub open spec fn trail_spaces(s: Seq<char>) -> nat
    decreases s.len(),
{
    if s.len() > 0 && is_space(s.last()) {
        1 + trail_spaces(s.drop_last())
    } else {
        0
    }
}

/// `s` without leading and trailing white space (`str::trim`).
pub open spec fn trimmed(s: Seq<char>) -> Seq<char> {
    let a = s.skip(lead_spaces(s) as int);
    a.take(a.len() - trail_spaces(a))
}

pub proof fn lemma_lead_spaces(s: Seq<char>)
    ensures
        lead_spaces(s) <= s.len(),
        forall|i: int| 0 <= i < lead_spaces(s) ==> is_space(#[trigger] s[i]),
        lead_spaces(s) < s.len() ==> !is_space(s[lead_spaces(s) as int]),
    decreases s.len(),
{
    if s.len() > 0 && is_space(s[0]) {
        lemma_lead_spaces(s.drop_first());
        assert forall|i: int| 0 <= i < lead_spaces(s) implies is_space(#[trigger] s[i]) by {
            if i > 0 {
                assert(s[i] == s.drop_first()[i - 1]);
            }
        }
    }
}

pub proof fn lemma_trail_spaces(s: Seq<char>)
    ensures
        trail_spaces(s) <= s.len(),
        forall|i: int| s.len() - trail_spaces(s) <= i < s.len() ==> is_space(#[trigger] s[i]),
        trail_spaces(s) < s.len() ==> !is_space(s[s.len() - trail_spaces(s) - 1]),
    decreases s.len(),
{
    if s.len() > 0 && is_space(s.last()) {
        lemma_trail_spaces(s.drop_last());
        assert forall|i: int| s.len() - trail_spaces(s) <= i < s.len() implies is_space(
            #[trigger] s[i],
        ) by {
            if i < s.len() - 1 {
                assert(s[i] == s.drop_last()[i]);
            }
        }
    }
}

/// Finds the first non-space index at or after `from`.
fn skip_spaces_from(s: &str, len: usize, from: usize) -> (r: usize)
    requires
        len == s@.len(),
        from <= len,
        forall|i: int| 0 <= i < from ==> is_space(#[trigger] s@[i]),
    ensures
        r == lead_spaces(s@),
        r <= s@.len(),
{
    let mut i = from;
    while i < len && is_space_exec(s.get_char(i))
        invariant
            len == s@.len(),
            from <= i <= len,
            forall|j: int| 0 <= j < i ==> is_space(#[trigger] s@[j]),
        decreases len - i,
    {
        i = i + 1;
    }
    proof {
        lemma_lead_spaces(s@);
        if lead_spaces(s@) < i {
            assert(is_space(s@[lead_spaces(s@) as int]));
        }
        if (lead_spaces(s@) as int) > (i as int) {
            assert(is_space(s@[i as int]));
        }
    }
    i
}

/// `s` without leading and trailing white space, as a `String`.
pub fn trim_str(s: &str) -> (r: String)
    ensures
        r@ == trimmed(s@),
{
    let len = s.unicode_len();
    let start = skip_spaces_from(s, len, 0);
    let mut end = len;
    while end > start && is_space_exec(s.get_char(end - 1))
        invariant
            len == s@.len(),
            start == lead_spaces(s@),
            start <= end <= len,
            forall|j: int| end <= j < len ==> is_space(#[trigger] s@[j]),
        decreases end,
    {
        end = end - 1;
    }
    let ghost a = s@.skip(start as int);
    proof {
        lemma_lead_spaces(s@);
        lemma_trail_spaces(a);
        assert forall|j: int| end - start <= j < a.len() implies is_space(#[trigger] a[j]) by {
            assert(a[j] == s@[j + start]);
        }
        let t = trail_spaces(a);
        if (t as int) < (len - end) {
            assert(!is_space(a[a.len() - t - 1]));
            assert(is_space(a[a.len() - t - 1]));
        }
        if (t as int) > (len - end) {
            assert(is_space(a[(end - start - 1) as int]));
            assert(a[(end - start - 1) as int] == s@[end - 1]);
        }
        assert(s@.subrange(start as int, end as int) =~= a.take(a.len() - t));
    }
    String::from_str(s.substring_char(start, end))
}

/// ASCII lower case of a char (`char::to_ascii_lowercase`).
pub open spec fn ascii_lower(c: char) -> char {
    if 'A' <= c <= 'Z' {
        ((c as u32) + 32) as char
    } else {
        c
    }
}

/// ASCII upper case of a char (`char::to_ascii_uppercase`).
pub open spec fn ascii_upper(c: char) -> char {
    if 'a' <= c <= 'z' {
        ((c as u32) - 32) as char
    } else {
        c
    }
}

pub fn ascii_lower_exec(c: char) -> (r: char)
    ensures
        r == ascii_lower(c),
{
    if 'A' <= c && c <= 'Z' {
        let b = c as u8;
        let l: u8 = b + 32;
        l as char
    } else {
        c
    }
}

pub fn ascii_upper_exec(c: char) -> (r: char)
    ensures
        r == ascii_upper(c),
{
    if 'a' <= c && c <= 'z' {
        let b = c as u8;
        let u: u8 = b - 32;
        u as char
    } else {
        c
    }
}

/// The text mapped char by char through ASCII lower case.
pub open spec fn ascii_lowercase(s: Seq<char>) -> Seq<char> {
    s.map_values(|c: char| ascii_lower(c))
}

/// The text mapped char by char through ASCII upper case.
pub open spec fn ascii_uppercase(s: Seq<char>) -> Seq<char> {
    s.map_values(|c: char| ascii_upper(c))
}

pub fn to_ascii_lowercase(s: &str) -> (r: String)
    ensures
        r@ == ascii_lowercase(s@),
{
    let len = s.unicode_len();
    let mut out = String::new();
    let mut i: usize = 0;
    while i < len
        invariant
            len == s@.len(),
            i <= len,
            out@ =~= ascii_lowercase(s@.take(i as int)),
        decreases len - i,
    {
        let c = s.get_char(i);
        push_char(&mut out, ascii_lower_exec(c));
        assert(s@.take(i + 1) =~= s@.take(i as int).push(c));
        i = i + 1;
    }
    assert(s@.take(len as int) =~= s@);
    out
}

pub fn to_ascii_uppercase(s: &str) -> (r: String)
    ensures
        r@ == ascii_uppercase(s@),
{
    let len = s.unicode_len();
    let mut out = String::new();
    let mut i: usize = 0;
    while i < len
        invariant
            len == s@.len(),
            i <= len,
            out@ =~= ascii_uppercase(s@.take(i as int)),
        decreases len - i,
    {
        let c = s.get_char(i);
        push_char(&mut out, ascii_upper_exec(c));
        assert(s@.take(i + 1) =~= s@.take(i as int).push(c));
        i = i + 1;
    }
    assert(s@.take(len as int) =~= s@);
    out
}

/// Whether two texts are equal.
pub fn str_eq(a: &str, b: &str) -> (r: bool)
    ensures
        r == (a@ == b@),
{
    let n = a.unicode_len();
    let m = b.unicode_len();
    if n != m {
        return false;
    }
    let mut i: usize = 0;
    while i < n
        invariant
            n == a@.len(),
            m == b@.len(),
            n == m,
            i <= n,
            forall|j: int| 0 <= j < i ==> a@[j] == b@[j],
        decreases n - i,
    {
        if a.get_char(i) != b.get_char(i) {
            return false;
        }
        i = i + 1;
    }
    assert(a@ =~= b@);
    true
}

/// The file system named by an `lsblk`/`blkid` `FSTYPE` value.
pub open spec fn fs_from_lsblk(raw: Seq<char>) -> FileSystem {
    let k = ascii_lowercase(trimmed(raw));
    if k.len() == 0 { FileSystem::Unformatted }
    else if k == "ntfs"@ { FileSystem::Ntfs }
    else if k == "vfat"@ || k == "fat32"@ { FileSystem::Fat32 }
    else if k == "exfat"@ { FileSystem::ExFat }
    else if k == "ext2"@ { FileSystem::Ext2 }
    else if k == "ext3"@ { FileSystem::Ext3 }
    else if k == "ext4"@ { FileSystem::Ext4 }
    else if k == "btrfs"@ { FileSystem::Btrfs }
    else if k == "xfs"@ { FileSystem::Xfs }
    else if k == "swap"@ { FileSystem::LinuxSwap }
    else if k == "apfs"@ { FileSystem::Apfs }
    else if k == "hfs"@ || k == "hfsplus"@ { FileSystem::HfsPlus }
    else { FileSystem::Unknown }
}

impl FileSystem {
    /// Parses the `FSTYPE` value `lsblk`/`blkid` report. Unknown values map
    /// to `Unknown` rather than failing.
    pub fn from_lsblk_fstype(raw: &str) -> (r: FileSystem)
        ensures
            r == fs_from_lsblk(raw@),
    {
        let t = trim_str(raw);
        let k = to_ascii_lowercase(t.as_str());
        let k = k.as_str();
        proof {
            reveal_strlit("ntfs");
            reveal_strlit("vfat");
            reveal_strlit("fat32");
            reveal_strlit("exfat");
            reveal_strlit("ext2");
            reveal_strlit("ext3");
            reveal_strlit("ext4");
            reveal_strlit("btrfs");
            reveal_strlit("xfs");
            reveal_strlit("swap");
            reveal_strlit("apfs");
            reveal_strlit("hfs");
            reveal_strlit("hfsplus");
        }
        if k.unicode_len() == 0 {
            FileSystem::Unformatted
        } else if str_eq(k, "ntfs") {
            FileSystem::Ntfs
        } else if str_eq(k, "vfat") || str_eq(k, "fat32") {
            FileSystem::Fat32
        } else if str_eq(k, "exfat") {
            FileSystem::ExFat
        } else if str_eq(k, "ext2") {
            FileSystem::Ext2
        } else if str_eq(k, "ext3") {
            FileSystem::Ext3
        } else if str_eq(k, "ext4") {
            FileSystem::Ext4
        } else if str_eq(k, "btrfs") {
            FileSystem::Btrfs
        } else if str_eq(k, "xfs") {
            FileSystem::Xfs
        } else if str_eq(k, "swap") {
            FileSystem::LinuxSwap
        } else if str_eq(k, "apfs") {
            FileSystem::Apfs
        } else if str_eq(k, "hfs") || str_eq(k, "hfsplus") {
            FileSystem::HfsPlus
        } else {
            FileSystem::Unknown
        }
    }

    pub open spec fn spec_can_format(self) -> bool {
        !(self is Unknown)
    }

    pub open spec fn spec_can_resize(self) -> bool {
        self is Ntfs || self is Fat32 || self is Ext2 || self is Ext3 || self is Ext4
            || self is Btrfs || self is Unformatted
    }

    pub open spec fn spec_windows_readable(self) -> bool {
        self is Ntfs || self is Fat32 || self is ExFat
    }

    /// Every file system but `Unknown` can be a formatting target.
    pub fn can_format(self) -> (r: bool)
        ensures
            r == self.spec_can_format(),
    {
        !matches!(self, FileSystem::Unknown)
    }

    /// exFAT and XFS can't be resized; neither can Apple's, nor Unknown.
    pub fn can_resize(self) -> (r: bool)
        ensures
            r == self.spec_can_resize(),
    {
        matches!(
            self,
            FileSystem::Ntfs | FileSystem::Fat32 | FileSystem::Ext2 | FileSystem::Ext3
                | FileSystem::Ext4 | FileSystem::Btrfs | FileSystem::Unformatted
        )
    }

    /// Readable by Windows without extra software.
    pub fn windows_readable(self) -> (r: bool)
        ensures
            r == self.spec_windows_readable(),
    {
        matches!(self, FileSystem::Ntfs | FileSystem::Fat32 | FileSystem::ExFat)
    }
}

/// What role a partition plays, independent of its file system.
#[derive(Debug, Clone, Copy, PartialEq, Eq, Structural)]
pub enum PartitionKind {
    Efi,
    MicrosoftReserved,
    Recovery,
    BasicData,
    LinuxFilesystem,
    LinuxSwap,
    Other,
}

/// Partition flags as a bit mask (sent to the UIs as that plain number).
#[derive(Debug, Clone, Copy, PartialEq, Eq, Structural)]
pub struct PartitionFlags {
    pub bits: u8,
}

pub const FLAG_BOOT: u8 = 1;
pub const FLAG_SYSTEM: u8 = 2;
pub const FLAG_ACTIVE_MOUNT: u8 = 4;
pub const FLAG_LOCKED: u8 = 8;
/// Every defined flag bit.
pub const FLAG_BITS_ALL: u8 = 15;

impl PartitionFlags {
    pub fn boot() -> (r: PartitionFlags)
        ensures
            r.bits == FLAG_BOOT,
    {
        PartitionFlags { bits: FLAG_BOOT }
    }

    pub fn system() -> (r: PartitionFlags)
        ensures
            r.bits == FLAG_SYSTEM,
    {
        PartitionFlags { bits: FLAG_SYSTEM }
    }

    /// The partition is currently mounted / has an active volume.
    pub fn active_mount() -> (r: PartitionFlags)
        ensures
            r.bits == FLAG_ACTIVE_MOUNT,
    {
        PartitionFlags { bits: FLAG_ACTIVE_MOUNT }
    }

    /// Marked as not to be modified.
    pub fn locked() -> (r: PartitionFlags)
        ensures
            r.bits == FLAG_LOCKED,
    {
        PartitionFlags { bits: FLAG_LOCKED }
    }

    pub fn empty() -> (r: PartitionFlags)
        ensures
            r.bits == 0,
    {
        PartitionFlags { bits: 0 }
    }

    pub fn bits(self) -> (r: u8)
        ensures
            r == self.bits,
    {
        self.bits
    }

    /// Keeps only the defined bits of `bits`.
    pub fn from_bits_truncate(bits: u8) -> (r: PartitionFlags)
        ensures
            r.bits == bits & FLAG_BITS_ALL,
    {
        PartitionFlags { bits: bits & FLAG_BITS_ALL }
    }

    pub fn union(self, other: PartitionFlags) -> (r: PartitionFlags)
        ensures
            r.bits == self.bits | other.bits,
    {
        PartitionFlags { bits: self.bits | other.bits }
    }

    pub fn contains(self, other: PartitionFlags) -> (r: bool)
        ensures
            r == (self.bits & other.bits == other.bits),
    {
        self.bits & other.bits == other.bits
    }

    pub fn is_empty(self) -> (r: bool)
        ensures
            r == (self.bits == 0),
    {
        self.bits == 0
    }
}

/// One partition on a disk.
#[derive(Debug, Clone)]
pub struct Partition {
    pub id: PartitionId,
    pub number: u32,
    /// Start offset, in bytes from the start of the disk.
    pub start: ByteSize,
    pub size: ByteSize,
    pub used: Option<ByteSize>,
    pub fs: FileSystem,
    pub kind: PartitionKind,
    pub label: Option<String>,
    pub flags: PartitionFlags,
    /// Windows drive letter, if any.
    pub drive_letter: Option<char>,
    /// Linux mount points.
    pub mountpoints: Vec<String>,
}

impl Partition {
    /// First byte after the partition, or `None` on overflow.
    pub fn end(&self) -> (r: Option<ByteSize>)
        ensures
            self.start.0 + self.size.0 <= u64::MAX ==> r == Some(
                ByteSize((self.start.0 + self.size.0) as u64),
            ),
            self.start.0 + self.size.0 > u64::MAX ==> r is None,
    {
        self.start.checked_add(self.size)
    }
}

/// One region of a disk's layout: a partition or unallocated space.
#[derive(Debug, Clone)]
pub enum Segment {
    Partition(Partition),
    Unallocated { start: ByteSize, size: ByteSize },
}

impl Segment {
    pub open spec fn spec_start(&self) -> u64 {
        match self {
            Segment::Partition(p) => p.start.0,
            Segment::Unallocated { start, .. } => start.0,
        }
    }

    pub open spec fn spec_size(&self) -> u64 {
        match self {
            Segment::Partition(p) => p.size.0,
            Segment::Unallocated { size, .. } => size.0,
        }
    }

    pub fn start(&self) -> (r: ByteSize)
        ensures
            r.0 == self.spec_start(),
    {
        match self {
            Segment::Partition(p) => p.start,
            Segment::Unallocated { start, .. } => *start,
        }
    }

    pub fn size(&self) -> (r: ByteSize)
        ensures
            r.0 == self.spec_size(),
    {
        match self {
            Segment::Partition(p) => p.size,
            Segment::Unallocated { size, .. } => *size,
        }
    }
}

/// The partitions of a layout, in layout order.
pub open spec fn partitions_of(layout: Seq<Segment>) -> Seq<Partition>
    decreases layout.len(),
{
    if layout.len() == 0 {
        seq![]
    } else {
        let rest = partitions_of(layout.drop_last());
        match layout.last() {
            Segment::Partition(p) => rest.push(p),
            Segment::Unallocated { .. } => rest,
        }
    }
}

/// Whether segments follow each other without gap or overlap from byte
/// `from` on.
pub open spec fn contiguous_from(layout: Seq<Segment>, from: int) -> bool {
    forall|i: int|
        0 <= i < layout.len() ==> (#[trigger] layout[i]).spec_start() == if i == 0 {
            from
        } else {
            layout[i - 1].spec_start() + layout[i - 1].spec_size()
        }
}

/// A disk and its full partition layout.
#[derive(Debug, Clone)]
pub struct Disk {
    pub id: DiskId,
    pub display_name: String,
    pub vendor: String,
    pub model: String,
    pub serial: Option<String>,
    pub bus: BusType,
    pub media: MediaType,
    pub size: ByteSize,
    pub logical_sector_size: u32,
    pub table: PartitionTable,
    pub health: HealthStatus,
    pub read_only: bool,
    /// True for the disk the running OS lives on.
    pub is_system_disk: bool,
    pub layout: Vec<Segment>,
}

impl Disk {
    /// The partitions of the layout, in order.
    pub fn partitions(&self) -> (r: Vec<&Partition>)
        ensures
            r@.map_values(|p: &Partition| *p) =~= partitions_of(self.layout@),
    {
        let mut out: Vec<&Partition> = Vec::new();
        let mut i: usize = 0;
        while i < self.layout.len()
            invariant
                i <= self.layout@.len(),
                out@.map_values(|p: &Partition| *p) =~= partitions_of(self.layout@.take(i as int)),
            decreases self.layout@.len() - i,
        {
            assert(self.layout@.take(i + 1).drop_last() =~= self.layout@.take(i as int));
            match &self.layout[i] {
                Segment::Partition(p) => {
                    out.push(p);
                },
                Segment::Unallocated { .. } => {},
            }
            i = i + 1;
        }
        assert(self.layout@.take(self.layout@.len() as int) =~= self.layout@);
        out
    }
}

/// The file system named by an `lsblk`/`blkid` type, whatever its case
/// and surrounding white space: `k` is that name lowercased and trimmed.
pub proof fn lemma_fs_names(raw: Seq<char>)
    ensures
        ascii_lowercase(trimmed(raw)).len() == 0 ==> fs_from_lsblk(raw) == FileSystem::Unformatted,
        ascii_lowercase(trimmed(raw)) == "ntfs"@ ==> fs_from_lsblk(raw) == FileSystem::Ntfs,
        ascii_lowercase(trimmed(raw)) == "vfat"@ || ascii_lowercase(trimmed(raw)) == "fat32"@ ==> fs_from_lsblk(raw) == FileSystem::Fat32,
        ascii_lowercase(trimmed(raw)) == "exfat"@ ==> fs_from_lsblk(raw) == FileSystem::ExFat,
        ascii_lowercase(trimmed(raw)) == "ext2"@ ==> fs_from_lsblk(raw) == FileSystem::Ext2,
        ascii_lowercase(trimmed(raw)) == "ext3"@ ==> fs_from_lsblk(raw) == FileSystem::Ext3,
        ascii_lowercase(trimmed(raw)) == "ext4"@ ==> fs_from_lsblk(raw) == FileSystem::Ext4,
        ascii_lowercase(trimmed(raw)) == "btrfs"@ ==> fs_from_lsblk(raw) == FileSystem::Btrfs,
        ascii_lowercase(trimmed(raw)) == "xfs"@ ==> fs_from_lsblk(raw) == FileSystem::Xfs,
        ascii_lowercase(trimmed(raw)) == "swap"@ ==> fs_from_lsblk(raw) == FileSystem::LinuxSwap,
        ascii_lowercase(trimmed(raw)) == "apfs"@ ==> fs_from_lsblk(raw) == FileSystem::Apfs,
        ascii_lowercase(trimmed(raw)) == "hfs"@ || ascii_lowercase(trimmed(raw)) == "hfsplus"@ ==> fs_from_lsblk(raw) == FileSystem::HfsPlus,
        !((ascii_lowercase(trimmed(raw)).len() == 0) || (ascii_lowercase(trimmed(raw)) == "ntfs"@) || (ascii_lowercase(trimmed(raw)) == "vfat"@ || ascii_lowercase(trimmed(raw)) == "fat32"@) || (ascii_lowercase(trimmed(raw)) == "exfat"@) || (ascii_lowercase(trimmed(raw)) == "ext2"@) || (ascii_lowercase(trimmed(raw)) == "ext3"@) || (ascii_lowercase(trimmed(raw)) == "ext4"@) || (ascii_lowercase(trimmed(raw)) == "btrfs"@) || (ascii_lowercase(trimmed(raw)) == "xfs"@) || (ascii_lowercase(trimmed(raw)) == "swap"@) || (ascii_lowercase(trimmed(raw)) == "apfs"@) || (ascii_lowercase(trimmed(raw)) == "hfs"@ || ascii_lowercase(trimmed(raw)) == "hfsplus"@)) ==> fs_from_lsblk(raw) == FileSystem::Unknown,
{
    reveal_strlit("apfs");
    reveal_strlit("btrfs");
    reveal_strlit("exfat");
    reveal_strlit("ext2");
    reveal_strlit("ext3");
    reveal_strlit("ext4");
    reveal_strlit("fat32");
    reveal_strlit("hfs");
    reveal_strlit("hfsplus");
    reveal_strlit("ntfs");
    reveal_strlit("swap");
    reveal_strlit("vfat");
    reveal_strlit("xfs");
    assert("apfs"@.len() != "btrfs"@.len());
    assert("apfs"@.len() != "exfat"@.len());
    assert("apfs"@[0] != "ext2"@[0]);
    assert("apfs"@[0] != "ext3"@[0]);
    assert("apfs"@[0] != "ext4"@[0]);
    assert("apfs"@.len() != "fat32"@.len());
    assert("apfs"@.len() != "hfs"@.len());
    assert("apfs"@.len() != "hfsplus"@.len());
    assert("apfs"@[0] != "ntfs"@[0]);
    assert("apfs"@[0] != "swap"@[0]);
    assert("apfs"@[0] != "vfat"@[0]);
    assert("apfs"@.len() != "xfs"@.len());
    assert("btrfs"@[0] != "exfat"@[0]);
    assert("btrfs"@.len() != "ext2"@.len());
    assert("btrfs"@.len() != "ext3"@.len());
    assert("btrfs"@.len() != "ext4"@.len());
    assert("btrfs"@[0] != "fat32"@[0]);
    assert("btrfs"@.len() != "hfs"@.len());
    assert("btrfs"@.len() != "hfsplus"@.len());
    assert("btrfs"@.len() != "ntfs"@.len());
    assert("btrfs"@.len() != "swap"@.len());
    assert("btrfs"@.len() != "vfat"@.len());
    assert("btrfs"@.len() != "xfs"@.len());
    assert("exfat"@.len() != "ext2"@.len());
    assert("exfat"@.len() != "ext3"@.len());
    assert("exfat"@.len() != "ext4"@.len());
    assert("exfat"@[0] != "fat32"@[0]);
    assert("exfat"@.len() != "hfs"@.len());
    assert("exfat"@.len() != "hfsplus"@.len());
    assert("exfat"@.len() != "ntfs"@.len());
    assert("exfat"@.len() != "swap"@.len());
    assert("exfat"@.len() != "vfat"@.len());
    assert("exfat"@.len() != "xfs"@.len());
    assert("ext2"@[3] != "ext3"@[3]);
    assert("ext2"@[3] != "ext4"@[3]);
    assert("ext2"@.len() != "fat32"@.len());
    assert("ext2"@.len() != "hfs"@.len());
    assert("ext2"@.len() != "hfsplus"@.len());
    assert("ext2"@[0] != "ntfs"@[0]);
    assert("ext2"@[0] != "swap"@[0]);
    assert("ext2"@[0] != "vfat"@[0]);
    assert("ext2"@.len() != "xfs"@.len());
    assert("ext3"@[3] != "ext4"@[3]);
    assert("ext3"@.len() != "fat32"@.len());
    assert("ext3"@.len() != "hfs"@.len());
    assert("ext3"@.len() != "hfsplus"@.len());
    assert("ext3"@[0] != "ntfs"@[0]);
    assert("ext3"@[0] != "swap"@[0]);
    assert("ext3"@[0] != "vfat"@[0]);
    assert("ext3"@.len() != "xfs"@.len());
    assert("ext4"@.len() != "fat32"@.len());
    assert("ext4"@.len() != "hfs"@.len());
    assert("ext4"@.len() != "hfsplus"@.len());
    assert("ext4"@[0] != "ntfs"@[0]);
    assert("ext4"@[0] != "swap"@[0]);
    assert("ext4"@[0] != "vfat"@[0]);
    assert("ext4"@.len() != "xfs"@.len());
    assert("fat32"@.len() != "hfs"@.len());
    assert("fat32"@.len() != "hfsplus"@.len());
    assert("fat32"@.len() != "ntfs"@.len());
    assert("fat32"@.len() != "swap"@.len());
    assert("fat32"@.len() != "vfat"@.len());
    assert("fat32"@.len() != "xfs"@.len());
    assert("hfs"@.len() != "hfsplus"@.len());
    assert("hfs"@.len() != "ntfs"@.len());
    assert("hfs"@.len() != "swap"@.len());
    assert("hfs"@.len() != "vfat"@.len());
    assert("hfs"@[0] != "xfs"@[0]);
    assert("hfsplus"@.len() != "ntfs"@.len());
    assert("hfsplus"@.len() != "swap"@.len());
    assert("hfsplus"@.len() != "vfat"@.len());
    assert("hfsplus"@.len() != "xfs"@.len());
    assert("ntfs"@[0] != "swap"@[0]);
    assert("ntfs"@[0] != "vfat"@[0]);
    assert("ntfs"@.len() != "xfs"@.len());
    assert("swap"@[0] != "vfat"@[0]);
    assert("swap"@.len() != "xfs"@.len());
    assert("vfat"@.len() != "xfs"@.len());
}

} // verus!
