//! What the UI asks for (`OperationRequest`), how risky it is, and the rules
//! a request is checked against before anything touches a disk.
use vstd::prelude::*;
use crate::models::{
    ascii_upper, ascii_upper_exec, str_eq, ByteSize, Disk, DiskId, FileSystem, HealthStatus, Partition, PartitionId,
    PartitionKind, PartitionTable, Segment, MIB,
};
use crate::platform::{inventory_text, InventoryError};

verus! {

/// A single operation the UI asks for.
#[derive(Debug, Clone)]
pub enum OperationRequest {
    CreatePartition {
        disk: DiskId,
        start: ByteSize,
        size: ByteSize,
        filesystem: FileSystem,
        label: Option<String>,
        /// Windows only: the drive letter to assign at creation.
        drive_letter: Option<char>,
    },
    DeletePartition { partition: PartitionId },
    FormatPartition { partition: PartitionId, filesystem: FileSystem, label: Option<String> },
    SetLabel { partition: PartitionId, label: String },
    /// Windows only: assigns or changes a partition's drive letter.
    SetDriveLetter { partition: PartitionId, drive_letter: char },
    /// Erases the whole disk and leaves one partition spanning all of it.
    EraseDisk { disk: DiskId, filesystem: FileSystem, label: Option<String> },
}

#[derive(Debug, Clone, Copy, PartialEq, Eq, Structural)]
pub enum OperationKind {
    Create,
    Delete,
    Format,
    SetLabel,
    SetDriveLetter,
    EraseDisk,
}

#[derive(Debug, Clone, Copy, PartialEq, Eq, PartialOrd, Ord, Structural)]
pub enum RiskLevel {
    Low,
    Medium,
    High,
    Critical,
}

impl RiskLevel {
    /// Position of the level in `Low < Medium < High < Critical`.
    pub open spec fn spec_rank(self) -> nat {
        match self {
            RiskLevel::Low => 0,
            RiskLevel::Medium => 1,
            RiskLevel::High => 2,
            RiskLevel::Critical => 3,
        }
    }

    pub fn rank(self) -> (r: u8)
        ensures
            r == self.spec_rank(),
    {
        match self {
            RiskLevel::Low => 0,
            RiskLevel::Medium => 1,
            RiskLevel::High => 2,
            RiskLevel::Critical => 3,
        }
    }

    /// Whether this level is `High` or above, i.e. needs an explicit
    /// confirmation.
    pub fn needs_confirmation(self) -> (r: bool)
        ensures
            r == (self.spec_rank() >= 2),
    {
        self.rank() >= 2
    }
}

/// Index of the first `c` in `s` at or after `from`, or `s.len()`.
pub open spec fn first_index(s: Seq<char>, c: char, from: int) -> int
    decreases s.len() - from,
{
    if from >= s.len() {
        s.len() as int
    } else if s[from] == c {
        from
    } else {
        first_index(s, c, from + 1)
    }
}

/// The part of `s` before its first `c`.
pub open spec fn before_char(s: Seq<char>, c: char) -> Seq<char> {
    s.take(first_index(s, c, 0))
}

pub proof fn lemma_first_index(s: Seq<char>, c: char, from: int)
    requires
        0 <= from <= s.len(),
    ensures
        from <= first_index(s, c, from) <= s.len(),
        first_index(s, c, from) < s.len() ==> s[first_index(s, c, from)] == c,
        forall|j: int| from <= j < first_index(s, c, from) ==> s[j] != c,
    decreases s.len() - from,
{
    if from < s.len() && s[from] != c {
        lemma_first_index(s, c, from + 1);
    }
}

/// Index of the first `c` in `s`, or its length.
pub fn find_char(s: &str, c: char) -> (r: usize)
    ensures
        r == first_index(s@, c, 0),
{
    let len = s.unicode_len();
    let mut i: usize = 0;
    while i < len && s.get_char(i) != c
        invariant
            len == s@.len(),
            i <= len,
            first_index(s@, c, i as int) == first_index(s@, c, 0),
        decreases len - i,
    {
        i = i + 1;
    }
    i
}

/// The disk half of a `"{disk}#{number}"` partition id.
pub open spec fn spec_partition_disk(id: Seq<char>) -> Seq<char> {
    before_char(id, '#')
}

/// Recovers the disk of a partition id without a lookup.
pub fn partition_disk(id: &PartitionId) -> (r: DiskId)
    ensures
        r.0@ == spec_partition_disk(id.0@),
{
    let s = id.0.as_str();
    let end = find_char(s, '#');
    proof {
        lemma_first_index(s@, '#', 0);
    }
    DiskId(String::from_str(s.substring_char(0, end)))
}

impl OperationRequest {
    /// The disk the request targets, by its text.
    pub open spec fn spec_disk_id(&self) -> Seq<char> {
        match self {
            OperationRequest::CreatePartition { disk, .. } => disk.0@,
            OperationRequest::EraseDisk { disk, .. } => disk.0@,
            OperationRequest::DeletePartition { partition } => spec_partition_disk(partition.0@),
            OperationRequest::FormatPartition { partition, .. } => spec_partition_disk(
                partition.0@,
            ),
            OperationRequest::SetLabel { partition, .. } => spec_partition_disk(partition.0@),
            OperationRequest::SetDriveLetter { partition, .. } => spec_partition_disk(
                partition.0@,
            ),
        }
    }

    pub open spec fn spec_kind(&self) -> OperationKind {
        match self {
            OperationRequest::CreatePartition { .. } => OperationKind::Create,
            OperationRequest::DeletePartition { .. } => OperationKind::Delete,
            OperationRequest::FormatPartition { .. } => OperationKind::Format,
            OperationRequest::SetLabel { .. } => OperationKind::SetLabel,
            OperationRequest::SetDriveLetter { .. } => OperationKind::SetDriveLetter,
            OperationRequest::EraseDisk { .. } => OperationKind::EraseDisk,
        }
    }

    pub open spec fn spec_risk(&self) -> RiskLevel {
        match self {
            OperationRequest::SetLabel { .. } => RiskLevel::Low,
            OperationRequest::SetDriveLetter { .. } => RiskLevel::Low,
            OperationRequest::CreatePartition { .. } => RiskLevel::Medium,
            OperationRequest::DeletePartition { .. } => RiskLevel::Critical,
            OperationRequest::FormatPartition { .. } => RiskLevel::Critical,
            OperationRequest::EraseDisk { .. } => RiskLevel::Critical,
        }
    }

    /// The disk this request targets. For partition-scoped requests this
    /// is the disk half of the partition id, a routing convenience only:
    /// `validate` looks the partition up inside the named disk.
    pub fn disk_id(&self) -> (r: DiskId)
        ensures
            r.0@ == self.spec_disk_id(),
    {
        match self {
            OperationRequest::CreatePartition { disk, .. } => DiskId(disk.0.clone()),
            OperationRequest::EraseDisk { disk, .. } => DiskId(disk.0.clone()),
            OperationRequest::DeletePartition { partition } => partition_disk(partition),
            OperationRequest::FormatPartition { partition, .. } => partition_disk(partition),
            OperationRequest::SetLabel { partition, .. } => partition_disk(partition),
            OperationRequest::SetDriveLetter { partition, .. } => partition_disk(partition),
        }
    }

    pub fn kind(&self) -> (r: OperationKind)
        ensures
            r == self.spec_kind(),
    {
        match self {
            OperationRequest::CreatePartition { .. } => OperationKind::Create,
            OperationRequest::DeletePartition { .. } => OperationKind::Delete,
            OperationRequest::FormatPartition { .. } => OperationKind::Format,
            OperationRequest::SetLabel { .. } => OperationKind::SetLabel,
            OperationRequest::SetDriveLetter { .. } => OperationKind::SetDriveLetter,
            OperationRequest::EraseDisk { .. } => OperationKind::EraseDisk,
        }
    }

    pub fn risk(&self) -> (r: RiskLevel)
        ensures
            r == self.spec_risk(),
    {
        match self {
            OperationRequest::SetLabel { .. } | OperationRequest::SetDriveLetter { .. } => {
                RiskLevel::Low
            },
            OperationRequest::CreatePartition { .. } => RiskLevel::Medium,
            OperationRequest::DeletePartition { .. }
            | OperationRequest::FormatPartition { .. }
            | OperationRequest::EraseDisk { .. } => RiskLevel::Critical,
        }
    }
}

/// Why a request was refused.
#[derive(Debug, Clone, Copy, PartialEq, Eq, Structural)]
pub enum ValidationError {
    DiskReadOnly,
    PartitionNotFound,
    NoFreeSpace,
    Alignment,
    SizeTooSmall,
    FilesystemUnsupported,
    InvalidLabel,
    InvalidDriveLetter,
    /// The disk reports itself as failing.
    DiskFailing,
    /// A and B are not given out.
    DriveLetterReserved,
    /// EFI, MSR, recovery and swap partitions get no drive letter.
    ProtectedPartition,
    /// The partition is larger than the file system can be.
    SizeTooLarge,
    /// Another partition of the disk has the drive letter.
    DriveLetterInUse,
    /// The partition table has no free entry: 4 primary partitions on
    /// MBR, 128 entries on GPT.
    TableFull,
    /// MBR addresses no sector at or beyond 2^32.
    MbrSizeLimit,
}

/// The message shown for a validation error.
pub open spec fn validation_text(e: ValidationError) -> Seq<char> {
    match e {
        ValidationError::DiskReadOnly => "Datenträger ist schreibgeschützt"@,
        ValidationError::PartitionNotFound => "Partition wurde nicht gefunden"@,
        ValidationError::NoFreeSpace => "kein ausreichender nicht zugewiesener Speicher an dieser Stelle"@,
        ValidationError::Alignment => "Anfang oder Größe ist nicht auf 1 MiB ausgerichtet"@,
        ValidationError::SizeTooSmall => "Größe unterschreitet die Mindestgröße"@,
        ValidationError::FilesystemUnsupported => "dieses Dateisystem unterstützt diese Aktion nicht"@,
        ValidationError::InvalidLabel => "Label ist ungültig oder zu lang"@,
        ValidationError::InvalidDriveLetter => "Laufwerksbuchstabe muss ein einzelner Buchstabe A-Z sein"@,
        ValidationError::DiskFailing => "Datenträger meldet einen Defekt, zuerst Daten sichern"@,
        ValidationError::DriveLetterReserved => "Laufwerksbuchstaben A und B sind reserviert"@,
        ValidationError::ProtectedPartition => "diese Partition erhält keinen Laufwerksbuchstaben"@,
        ValidationError::SizeTooLarge => "Größe überschreitet die Höchstgröße"@,
        ValidationError::DriveLetterInUse => "Laufwerksbuchstabe ist bereits vergeben"@,
        ValidationError::TableFull => "die Partitionstabelle hat keinen freien Eintrag"@,
        ValidationError::MbrSizeLimit => "MBR reicht nur bis 2^32 Sektoren"@,
    }
}

impl ValidationError {
    /// The message shown to the user.
    pub fn message(&self) -> (r: String)
        ensures
            r@ == validation_text(*self),
    {
        let s = match self {
            ValidationError::DiskReadOnly => "Datenträger ist schreibgeschützt",
            ValidationError::PartitionNotFound => "Partition wurde nicht gefunden",
            ValidationError::NoFreeSpace => {
                "kein ausreichender nicht zugewiesener Speicher an dieser Stelle"
            },
            ValidationError::Alignment => "Anfang oder Größe ist nicht auf 1 MiB ausgerichtet",
            ValidationError::SizeTooSmall => "Größe unterschreitet die Mindestgröße",
            ValidationError::FilesystemUnsupported => {
                "dieses Dateisystem unterstützt diese Aktion nicht"
            },
            ValidationError::InvalidLabel => "Label ist ungültig oder zu lang",
            ValidationError::InvalidDriveLetter => {
                "Laufwerksbuchstabe muss ein einzelner Buchstabe A-Z sein"
            },
            ValidationError::DiskFailing => "Datenträger meldet einen Defekt, zuerst Daten sichern",
            ValidationError::DriveLetterReserved => "Laufwerksbuchstaben A und B sind reserviert",
            ValidationError::ProtectedPartition => "diese Partition erhält keinen Laufwerksbuchstaben",
            ValidationError::SizeTooLarge => "Größe überschreitet die Höchstgröße",
            ValidationError::DriveLetterInUse => "Laufwerksbuchstabe ist bereits vergeben",
            ValidationError::TableFull => "die Partitionstabelle hat keinen freien Eintrag",
            ValidationError::MbrSizeLimit => "MBR reicht nur bis 2^32 Sektoren",
        };
        String::from_str(s)
    }
}

/// Partitions start and end on this grid.
pub const ALIGNMENT: u64 = 1048576;

/// The smallest partition MoonDisk creates.
pub const MIN_PARTITION_SIZE: u64 = 1048576;

/// Longest label accepted, in characters.
pub const MAX_LABEL_CHARS: usize = 32;

/// `char::is_control`: the Unicode `Cc` category.
pub open spec fn is_control(c: char) -> bool {
    c <= '\u{1F}' || ('\u{7F}' <= c <= '\u{9F}')
}

pub fn is_control_exec(c: char) -> (r: bool)
    ensures
        r == is_control(c),
{
    c <= '\u{1F}' || ('\u{7F}' <= c && c <= '\u{9F}')
}

/// `char::is_ascii_alphabetic`.
pub open spec fn is_ascii_alpha(c: char) -> bool {
    ('A' <= c <= 'Z') || ('a' <= c <= 'z')
}

pub fn is_ascii_alpha_exec(c: char) -> (r: bool)
    ensures
        r == is_ascii_alpha(c),
{
    ('A' <= c && c <= 'Z') || ('a' <= c && c <= 'z')
}

/// A label is 1 to 32 characters, none of them a control character.
pub open spec fn label_ok(label: Seq<char>) -> bool {
    &&& label.len() > 0
    &&& label.len() <= MAX_LABEL_CHARS
    &&& forall|i: int| 0 <= i < label.len() ==> !is_control(#[trigger] label[i])
}

/// Checks a label.
pub fn validate_label(label: &str) -> (r: Result<(), ValidationError>)
    ensures
        r is Ok <==> label_ok(label@),
        r is Err ==> r == Err::<(), ValidationError>(ValidationError::InvalidLabel),
{
    let n = label.unicode_len();
    if n == 0 || n > MAX_LABEL_CHARS {
        return Err(ValidationError::InvalidLabel);
    }
    let mut i: usize = 0;
    while i < n
        invariant
            n == label@.len(),
            i <= n,
            forall|j: int| 0 <= j < i ==> !is_control(#[trigger] label@[j]),
        decreases n - i,
    {
        if is_control_exec(label.get_char(i)) {
            return Err(ValidationError::InvalidLabel);
        }
        i = i + 1;
    }
    Ok(())
}

/// Whether `v` lies on the 1 MiB grid.
pub fn is_aligned(v: ByteSize) -> (r: bool)
    ensures
        r == (v.0 % ALIGNMENT == 0),
{
    v.0 % ALIGNMENT == 0
}

/// End of a free region, or 0 where the region's end overflows.
pub open spec fn free_end(start: u64, size: u64) -> int {
    if start + size <= u64::MAX {
        start + size
    } else {
        0
    }
}

/// Whether `[start, end)` lies inside one unallocated segment.
pub open spec fn fits_in_free_region(layout: Seq<Segment>, start: u64, end: int) -> bool {
    exists|i: int|
        #![trigger layout[i]]
        0 <= i < layout.len() && match layout[i] {
            Segment::Unallocated { start: fs, size: fz } => start >= fs.0 && end <= free_end(
                fs.0,
                fz.0,
            ),
            Segment::Partition(_) => false,
        }
}

/// Whether the layout holds a partition with this id.
pub open spec fn has_partition(layout: Seq<Segment>, id: Seq<char>) -> bool {
    exists|i: int|
        #![trigger layout[i]]
        0 <= i < layout.len() && match layout[i] {
            Segment::Partition(p) => p.id.0@ == id,
            Segment::Unallocated { .. } => false,
        }
}

/// What `validate` decides for `req` against `disk`.
/// The smallest partition a file system is formatted onto.
pub open spec fn fs_min_size(fs: FileSystem) -> u64 {
    match fs {
        FileSystem::Ntfs => 8388608,
        FileSystem::Fat32 => 34603008,
        FileSystem::Ext2 | FileSystem::Ext3 | FileSystem::Ext4 => 16777216,
        FileSystem::Btrfs => 134217728,
        FileSystem::Xfs => 314572800,
        _ => 1048576,
    }
}

/// The largest partition a file system is formatted onto: 2 TiB for
/// FAT32; the others are bounded by the partition table alone.
pub open spec fn fs_max_size(fs: FileSystem) -> u64 {
    match fs {
        FileSystem::Fat32 => 2199023255552,
        _ => u64::MAX,
    }
}

/// A file system whose label can be changed: a known one.
pub open spec fn labelled_fs(fs: FileSystem) -> bool {
    !(fs is Unknown || fs is Unformatted)
}

fn fs_min_size_exec(fs: FileSystem) -> (r: u64)
    ensures
        r == fs_min_size(fs),
{
    match fs {
        FileSystem::Ntfs => 8388608,
        FileSystem::Fat32 => 34603008,
        FileSystem::Ext2 | FileSystem::Ext3 | FileSystem::Ext4 => 16777216,
        FileSystem::Btrfs => 134217728,
        FileSystem::Xfs => 314572800,
        _ => 1048576,
    }
}

fn fs_max_size_exec(fs: FileSystem) -> (r: u64)
    ensures
        r == fs_max_size(fs),
{
    match fs {
        FileSystem::Fat32 => 2199023255552,
        _ => u64::MAX,
    }
}

pub open spec fn spec_validate(disk: Disk, req: OperationRequest) -> Result<(), ValidationError> {
    if disk.read_only {
        Err(ValidationError::DiskReadOnly)
    } else if disk.health == HealthStatus::Failing {
        Err(ValidationError::DiskFailing)
    } else {
        match req {
            OperationRequest::CreatePartition { start, size, drive_letter, .. } => {
                spec_validate_create(disk, start, size, drive_letter)
            },
            OperationRequest::DeletePartition { partition } => {
                if !has_partition(disk.layout@, partition.0@) {
                    Err(ValidationError::PartitionNotFound)
                } else {
                    Ok(())
                }
            },
            OperationRequest::FormatPartition { partition, filesystem, label } => {
                if !has_partition(disk.layout@, partition.0@) {
                    Err(ValidationError::PartitionNotFound)
                } else if !filesystem.spec_can_format() {
                    Err(ValidationError::FilesystemUnsupported)
                } else if first_partition(disk.layout@, partition.0@).size.0 < fs_min_size(filesystem) {
                    Err(ValidationError::SizeTooSmall)
                } else if first_partition(disk.layout@, partition.0@).size.0 > fs_max_size(filesystem) {
                    Err(ValidationError::SizeTooLarge)
                } else if label matches Some(l) && !label_ok(l@) {
                    Err(ValidationError::InvalidLabel)
                } else {
                    Ok(())
                }
            },
            OperationRequest::SetLabel { partition, label } => {
                if !has_partition(disk.layout@, partition.0@) {
                    Err(ValidationError::PartitionNotFound)
                } else if !labelled_fs(first_partition(disk.layout@, partition.0@).fs) {
                    Err(ValidationError::FilesystemUnsupported)
                } else if !label_ok(label@) {
                    Err(ValidationError::InvalidLabel)
                } else {
                    Ok(())
                }
            },
            OperationRequest::SetDriveLetter { partition, drive_letter } => {
                if !has_partition(disk.layout@, partition.0@) {
                    Err(ValidationError::PartitionNotFound)
                } else if !is_ascii_alpha(drive_letter) {
                    Err(ValidationError::InvalidDriveLetter)
                } else if reserved_letter(drive_letter) {
                    Err(ValidationError::DriveLetterReserved)
                } else if letter_taken(disk.layout@, drive_letter, Some(partition.0@)) {
                    Err(ValidationError::DriveLetterInUse)
                } else if no_letter_kind(first_partition(disk.layout@, partition.0@).kind) {
                    Err(ValidationError::ProtectedPartition)
                } else {
                    Ok(())
                }
            },
            OperationRequest::EraseDisk { filesystem, label, .. } => {
                if !filesystem.spec_can_format() {
                    Err(ValidationError::FilesystemUnsupported)
                } else if label matches Some(l) && !label_ok(l@) {
                    Err(ValidationError::InvalidLabel)
                } else {
                    Ok(())
                }
            },
        }
    }
}

/// Two layouts that validation cannot tell apart: segment by segment the
/// same kind, the same partition ids and the same free ranges. Everything
/// else a partition carries (its flags among it) may differ.
pub open spec fn same_validation_shape(a: Seq<Segment>, b: Seq<Segment>) -> bool {
    &&& a.len() == b.len()
    &&& forall|i: int|
        #![trigger a[i], b[i]]
        0 <= i < a.len() ==> match (a[i], b[i]) {
            (Segment::Partition(p), Segment::Partition(q)) => p.id.0@ == q.id.0@ && p.kind == q.kind && p.fs
                == q.fs && p.size == q.size && p.drive_letter == q.drive_letter,
            (
                Segment::Unallocated { start: s1, size: z1 },
                Segment::Unallocated { start: s2, size: z2 },
            ) => s1 == s2 && z1 == z2,
            _ => false,
        }
}

proof fn lemma_same_shape_counts(a: Seq<Segment>, b: Seq<Segment>)
    requires
        same_validation_shape(a, b),
    ensures
        partition_count(a) == partition_count(b),
        forall|c: char, ex: Option<Seq<char>>| letter_taken(a, c, ex) == letter_taken(b, c, ex),
    decreases a.len(),
{
    assert forall|i: int| 0 <= i < a.len() implies (a[i] is Partition) == (b[i] is Partition) && forall|
        c: char,
        ex: Option<Seq<char>>,
    | letter_at(#[trigger] a[i], c, ex) == letter_at(b[i], c, ex) by {
        assert(a[i] == a[i] && b[i] == b[i]);
    }
    assert forall|c: char, ex: Option<Seq<char>>| letter_taken(a, c, ex) == letter_taken(b, c, ex) by {
        if letter_taken(a, c, ex) {
            let i = choose|i: int| 0 <= i < a.len() && #[trigger] letter_at(a[i], c, ex);
            assert(letter_at(b[i], c, ex));
        }
        if letter_taken(b, c, ex) {
            let i = choose|i: int| 0 <= i < b.len() && #[trigger] letter_at(b[i], c, ex);
            assert(letter_at(a[i], c, ex));
        }
    }
    if a.len() > 0 {
        let (a1, b1) = (a.drop_last(), b.drop_last());
        assert forall|i: int|
            #![trigger a1[i], b1[i]]
            0 <= i < a1.len() implies match (a1[i], b1[i]) {
            (Segment::Partition(p), Segment::Partition(q)) => p.id.0@ == q.id.0@ && p.kind == q.kind && p.fs
                == q.fs && p.size == q.size && p.drive_letter == q.drive_letter,
            (
                Segment::Unallocated { start: s1, size: z1 },
                Segment::Unallocated { start: s2, size: z2 },
            ) => s1 == s2 && z1 == z2,
            _ => false,
        } by {
            assert(a1[i] == a[i] && b1[i] == b[i]);
        }
        lemma_same_shape_counts(a1, b1);
        assert(a.last() == a[a.len() - 1]);
    }
}

proof fn lemma_same_shape_lookups(a: Seq<Segment>, b: Seq<Segment>)
    requires
        same_validation_shape(a, b),
    ensures
        forall|id: Seq<char>| has_partition(a, id) == has_partition(b, id),
        forall|start: u64, end: int|
            fits_in_free_region(a, start, end) == fits_in_free_region(b, start, end),
{
    assert forall|id: Seq<char>| has_partition(a, id) == has_partition(b, id) by {
        if has_partition(a, id) {
            let i = choose|i: int|
                #![trigger a[i]]
                0 <= i < a.len() && match a[i] {
                    Segment::Partition(p) => p.id.0@ == id,
                    Segment::Unallocated { .. } => false,
                };
            assert(match b[i] {
                Segment::Partition(q) => q.id.0@ == id,
                Segment::Unallocated { .. } => false,
            });
        }
        if has_partition(b, id) {
            let i = choose|i: int|
                #![trigger b[i]]
                0 <= i < b.len() && match b[i] {
                    Segment::Partition(p) => p.id.0@ == id,
                    Segment::Unallocated { .. } => false,
                };
            assert(match a[i] {
                Segment::Partition(q) => q.id.0@ == id,
                Segment::Unallocated { .. } => false,
            });
        }
    }
    assert forall|start: u64, end: int|
        fits_in_free_region(a, start, end) == fits_in_free_region(b, start, end) by {
        if fits_in_free_region(a, start, end) {
            let i = choose|i: int|
                #![trigger a[i]]
                0 <= i < a.len() && match a[i] {
                    Segment::Unallocated { start: fs, size: fz } => start >= fs.0 && end
                        <= free_end(fs.0, fz.0),
                    Segment::Partition(_) => false,
                };
            assert(match b[i] {
                Segment::Unallocated { start: fs, size: fz } => start >= fs.0 && end <= free_end(
                    fs.0,
                    fz.0,
                ),
                Segment::Partition(_) => false,
            });
        }
        if fits_in_free_region(b, start, end) {
            let i = choose|i: int|
                #![trigger b[i]]
                0 <= i < b.len() && match b[i] {
                    Segment::Unallocated { start: fs, size: fz } => start >= fs.0 && end
                        <= free_end(fs.0, fz.0),
                    Segment::Partition(_) => false,
                };
            assert(match a[i] {
                Segment::Unallocated { start: fs, size: fz } => start >= fs.0 && end <= free_end(
                    fs.0,
                    fz.0,
                ),
                Segment::Partition(_) => false,
            });
        }
    }
}

proof fn lemma_same_first_partition(a: Seq<Segment>, b: Seq<Segment>, id: Seq<char>)
    requires
        same_validation_shape(a, b),
    ensures
        first_partition_index(a, id) == first_partition_index(b, id),
        first_partition_index(a, id) < a.len() ==> first_partition(a, id).kind == first_partition(b, id).kind
            && first_partition(a, id).fs == first_partition(b, id).fs && first_partition(a, id).size
            == first_partition(b, id).size,
    decreases a.len(),
{
    if a.len() > 0 {
        assert(a[0] == a[0] && b[0] == b[0]);
        let (a1, b1) = (a.drop_first(), b.drop_first());
        assert forall|i: int| 0 <= i < a1.len() implies match (#[trigger] a1[i], #[trigger] b1[i]) {
            (Segment::Partition(p), Segment::Partition(q)) => p.id.0@ == q.id.0@ && p.kind == q.kind && p.fs
                == q.fs && p.size == q.size && p.drive_letter == q.drive_letter,
            (
                Segment::Unallocated { start: s1, size: z1 },
                Segment::Unallocated { start: s2, size: z2 },
            ) => s1 == s2 && z1 == z2,
            _ => false,
        } by {
            assert(a1[i] == a[i + 1] && b1[i] == b[i + 1]);
        }
        lemma_same_first_partition(a1, b1, id);
        lemma_first_partition_index(a1, id);
        lemma_first_partition_index(b1, id);
        let f = first_partition_index(a, id);
        if 0 < f < a.len() {
            assert(a[f] == a1[f - 1] && b[f] == b1[f - 1]);
            assert(first_partition(a, id) == first_partition(a1, id));
            assert(first_partition(b, id) == first_partition(b1, id));
        } else if f == 0 && a.len() > 0 {
            assert(a[0] matches Segment::Partition(p) && p.id.0@ == id);
            assert(b[0] matches Segment::Partition(q) && q.id.0@ == id);
        }
    }
}

/// Validation looks only at the read-only switch, whether the disk is
/// failing, its partition table and sector size, and at where partitions
/// (with their ids, kinds, file systems, sizes and drive letters) and free
/// space are: the system-disk mark, the partition flags (system, boot,
/// locked, mounted) and every other descriptive field never change what a
/// request is answered.
pub proof fn lemma_validation_ignores_informational_fields(
    disk: Disk,
    other: Disk,
    req: OperationRequest,
)
    requires
        other.read_only == disk.read_only,
        (other.health == HealthStatus::Failing) == (disk.health == HealthStatus::Failing),
        other.table == disk.table,
        other.logical_sector_size == disk.logical_sector_size,
        same_validation_shape(disk.layout@, other.layout@),
    ensures
        spec_validate(other, req) == spec_validate(disk, req),
{
    lemma_same_shape_lookups(disk.layout@, other.layout@);
    lemma_same_shape_counts(disk.layout@, other.layout@);
    match req {
        OperationRequest::SetLabel { partition, .. } => {
            lemma_same_first_partition(disk.layout@, other.layout@, partition.0@);
            lemma_first_partition_index(disk.layout@, partition.0@);
            if has_partition(disk.layout@, partition.0@) {
                let k = choose|k: int| #![trigger disk.layout@[k]] 0 <= k < disk.layout@.len() && match disk.layout@[k] {
                    Segment::Partition(p) => p.id.0@ == partition.0@,
                    Segment::Unallocated { .. } => false,
                };
                assert(first_partition_index(disk.layout@, partition.0@) <= k);
            }
        },
        OperationRequest::FormatPartition { partition, .. } => {
            lemma_same_first_partition(disk.layout@, other.layout@, partition.0@);
            lemma_first_partition_index(disk.layout@, partition.0@);
            if has_partition(disk.layout@, partition.0@) {
                let k = choose|k: int| #![trigger disk.layout@[k]] 0 <= k < disk.layout@.len() && match disk.layout@[k] {
                    Segment::Partition(p) => p.id.0@ == partition.0@,
                    Segment::Unallocated { .. } => false,
                };
                assert(first_partition_index(disk.layout@, partition.0@) <= k);
            }
        },
        OperationRequest::SetDriveLetter { partition, .. } => {
            lemma_same_first_partition(disk.layout@, other.layout@, partition.0@);
            lemma_first_partition_index(disk.layout@, partition.0@);
            if has_partition(disk.layout@, partition.0@) {
                let k = choose|k: int| #![trigger disk.layout@[k]] 0 <= k < disk.layout@.len() && match disk.layout@[k] {
                    Segment::Partition(p) => p.id.0@ == partition.0@,
                    Segment::Unallocated { .. } => false,
                };
                assert(first_partition_index(disk.layout@, partition.0@) <= k);
            }
        },
        _ => {},
    }
}

/// Looks a partition up by id inside the disk.
pub fn find_partition<'a>(disk: &'a Disk, id: &PartitionId) -> (r: Result<
    &'a Partition,
    ValidationError,
>)
    ensures
        r is Ok <==> has_partition(disk.layout@, id.0@),
        r matches Ok(p) ==> (p.id.0@ == id.0@ && exists|i: int|
            0 <= i < disk.layout@.len() && disk.layout@[i] == Segment::Partition(*p)),
        r is Err ==> r == Err::<&Partition, ValidationError>(ValidationError::PartitionNotFound),
        r matches Ok(p) ==> *p == first_partition(disk.layout@, id.0@),
{
    let mut i: usize = 0;
    while i < disk.layout.len()
        invariant
            i <= disk.layout@.len(),
            forall|j: int|
                0 <= j < i ==> !(#[trigger] disk.layout@[j] matches Segment::Partition(p)
                    && p.id.0@ == id.0@),
        decreases disk.layout@.len() - i,
    {
        match &disk.layout[i] {
            Segment::Partition(p) => {
                if p.id.0 == id.0 {
                    proof {
                        lemma_first_partition_index(disk.layout@, id.0@);
                        let f = first_partition_index(disk.layout@, id.0@);
                        if f < i {
                            assert(disk.layout@[f] matches Segment::Partition(q) && q.id.0@ == id.0@);
                        }
                        if f > i {
                            assert(!(disk.layout@[i as int] matches Segment::Partition(q) && q.id.0@ == id.0@));
                        }
                    }
                    return Ok(p);
                }
            },
            Segment::Unallocated { .. } => {},
        }
        i = i + 1;
    }
    proof {
        assert forall|j: int| 0 <= j < disk.layout@.len() implies !(match #[trigger] disk.layout@[j] {
            Segment::Partition(p) => p.id.0@ == id.0@,
            Segment::Unallocated { .. } => false,
        }) by {}
    }
    Err(ValidationError::PartitionNotFound)
}

/// Whether `[start, end)` fits in one free segment of the layout.
fn fits_free(disk: &Disk, start: ByteSize, end: ByteSize) -> (r: bool)
    ensures
        r == fits_in_free_region(disk.layout@, start.0, end.0 as int),
{
    let mut i: usize = 0;
    while i < disk.layout.len()
        invariant
            i <= disk.layout@.len(),
            forall|j: int|
                0 <= j < i ==> !(match #[trigger] disk.layout@[j] {
                    Segment::Unallocated { start: fs, size: fz } => start.0 >= fs.0 && end.0
                        <= free_end(fs.0, fz.0),
                    Segment::Partition(_) => false,
                }),
        decreases disk.layout@.len() - i,
    {
        match &disk.layout[i] {
            Segment::Unallocated { start: fs, size: fsz } => {
                let free_end = match fs.checked_add(*fsz) {
                    Some(e) => e,
                    None => ByteSize(0),
                };
                if start.0 >= fs.0 && end.0 <= free_end.0 {
                    return true;
                }
            },
            Segment::Partition(_) => {},
        }
        i = i + 1;
    }
    false
}

/// The create rules: alignment, minimum size, room in one free segment,
/// and a letter for the drive letter.
pub open spec fn spec_validate_create(
    disk: Disk,
    start: ByteSize,
    size: ByteSize,
    drive_letter: Option<char>,
) -> Result<(), ValidationError> {
    if start.0 % ALIGNMENT != 0 || size.0 % ALIGNMENT != 0 {
        Err(ValidationError::Alignment)
    } else if size.0 < MIN_PARTITION_SIZE {
        Err(ValidationError::SizeTooSmall)
    } else if start.0 + size.0 > u64::MAX {
        Err(ValidationError::NoFreeSpace)
    } else if !fits_in_free_region(disk.layout@, start.0, start.0 + size.0) {
        Err(ValidationError::NoFreeSpace)
    } else if table_full(disk.table, partition_count(disk.layout@)) {
        Err(ValidationError::TableFull)
    } else if disk.table == PartitionTable::Mbr && start.0 + size.0 > 4294967296 * disk.logical_sector_size {
        Err(ValidationError::MbrSizeLimit)
    } else if drive_letter matches Some(l) && !is_ascii_alpha(l) {
        Err(ValidationError::InvalidDriveLetter)
    } else if drive_letter matches Some(l) && reserved_letter(l) {
        Err(ValidationError::DriveLetterReserved)
    } else if drive_letter matches Some(l) && letter_taken(disk.layout@, l, None) {
        Err(ValidationError::DriveLetterInUse)
    } else {
        Ok(())
    }
}

/// The number of partitions in the layout.
pub open spec fn partition_count(layout: Seq<Segment>) -> nat
    decreases layout.len(),
{
    if layout.len() == 0 {
        0
    } else {
        partition_count(layout.drop_last()) + if layout.last() is Partition {
            1nat
        } else {
            0nat
        }
    }
}

/// A table with `count` partitions takes no more: MBR holds 4 primary
/// partitions, GPT 128 entries.
pub open spec fn table_full(table: PartitionTable, count: nat) -> bool {
    (table == PartitionTable::Mbr && count >= 4) || (table == PartitionTable::Gpt && count >= 128)
}

/// Segment `s` is a partition, other than the one with id `except`, that
/// has drive letter `c` (in either case).
pub open spec fn letter_at(s: Segment, c: char, except: Option<Seq<char>>) -> bool {
    &&& s matches Segment::Partition(p)
    &&& except != Some(p.id.0@)
    &&& p.drive_letter matches Some(d)
    &&& ascii_upper(d) == ascii_upper(c)
}

/// A partition of the layout, other than `except`, has drive letter `c`.
pub open spec fn letter_taken(layout: Seq<Segment>, c: char, except: Option<Seq<char>>) -> bool {
    exists|i: int| 0 <= i < layout.len() && #[trigger] letter_at(layout[i], c, except)
}

fn count_partitions(layout: &Vec<Segment>) -> (r: u64)
    ensures
        r == partition_count(layout@),
{
    let mut n: u64 = 0;
    let mut i: usize = 0;
    while i < layout.len()
        invariant
            i <= layout.len(),
            n == partition_count(layout@.take(i as int)),
            n <= i,
        decreases layout.len() - i,
    {
        assert(layout@.take(i + 1).drop_last() =~= layout@.take(i as int));
        match &layout[i] {
            Segment::Partition(_) => {
                n = n + 1;
            },
            Segment::Unallocated { .. } => {},
        }
        i = i + 1;
    }
    assert(layout@.take(layout.len() as int) =~= layout@);
    n
}

fn letter_taken_exec(layout: &Vec<Segment>, c: char, except: Option<&PartitionId>) -> (r: bool)
    ensures
        r == letter_taken(
            layout@,
            c,
            match except {
                Some(id) => Some(id.0@),
                None => None,
            },
        ),
{
    let ghost ex = match except {
        Some(id) => Some(id.0@),
        None => None::<Seq<char>>,
    };
    let uc = ascii_upper_exec(c);
    let mut i: usize = 0;
    while i < layout.len()
        invariant
            i <= layout.len(),
            uc == ascii_upper(c),
            ex == match except {
                Some(id) => Some(id.0@),
                None => None::<Seq<char>>,
            },
            forall|k: int| 0 <= k < i ==> !letter_at(#[trigger] layout@[k], c, ex),
        decreases layout.len() - i,
    {
        match &layout[i] {
            Segment::Partition(p) => {
                let other = match except {
                    Some(id) => !str_eq(p.id.0.as_str(), id.0.as_str()),
                    None => true,
                };
                if other {
                    match p.drive_letter {
                        Some(d) => {
                            if ascii_upper_exec(d) == uc {
                                assert(letter_at(layout@[i as int], c, ex));
                                return true;
                            }
                        },
                        None => {},
                    }
                }
            },
            Segment::Unallocated { .. } => {},
        }
        i = i + 1;
    }
    false
}

/// A and B (floppy drives) are not given out.
pub open spec fn reserved_letter(c: char) -> bool {
    c == 'A' || c == 'a' || c == 'B' || c == 'b'
}

pub fn reserved_letter_exec(c: char) -> (r: bool)
    ensures
        r == reserved_letter(c),
{
    c == 'A' || c == 'a' || c == 'B' || c == 'b'
}

/// Partitions that get no drive letter: EFI, MSR, recovery and swap.
pub open spec fn no_letter_kind(k: PartitionKind) -> bool {
    k == PartitionKind::Efi || k == PartitionKind::MicrosoftReserved || k == PartitionKind::Recovery
        || k == PartitionKind::LinuxSwap
}

/// Index of the first partition with this id in the layout, or its length.
pub open spec fn first_partition_index(layout: Seq<Segment>, id: Seq<char>) -> int
    decreases layout.len(),
{
    if layout.len() == 0 {
        0
    } else if layout[0] matches Segment::Partition(p) && p.id.0@ == id {
        0
    } else {
        1 + first_partition_index(layout.drop_first(), id)
    }
}

/// The first partition with this id (meaningful where there is one).
pub open spec fn first_partition(layout: Seq<Segment>, id: Seq<char>) -> Partition {
    layout[first_partition_index(layout, id)]->Partition_0
}

pub proof fn lemma_first_partition_index(layout: Seq<Segment>, id: Seq<char>)
    ensures
        0 <= first_partition_index(layout, id) <= layout.len(),
        first_partition_index(layout, id) < layout.len() ==> (layout[first_partition_index(layout, id)] matches Segment::Partition(p)
            && p.id.0@ == id),
        forall|j: int| 0 <= j < first_partition_index(layout, id) ==> !(#[trigger] layout[j] matches Segment::Partition(p)
            && p.id.0@ == id),
    decreases layout.len(),
{
    if layout.len() > 0 && !(layout[0] matches Segment::Partition(p) && p.id.0@ == id) {
        lemma_first_partition_index(layout.drop_first(), id);
        assert forall|j: int| 0 <= j < first_partition_index(layout, id) implies !(#[trigger] layout[j] matches Segment::Partition(p)
            && p.id.0@ == id) by {
            if j > 0 {
                assert(layout[j] == layout.drop_first()[j - 1]);
            }
        }
    }
}

fn validate_create(disk: &Disk, start: ByteSize, size: ByteSize, drive_letter: Option<char>) -> (r: Result<(), ValidationError>)
    ensures
        r == spec_validate_create(*disk, start, size, drive_letter),
{
    if !is_aligned(start) || !is_aligned(size) {
        return Err(ValidationError::Alignment);
    }
    if size.0 < MIN_PARTITION_SIZE {
        return Err(ValidationError::SizeTooSmall);
    }
    let end = match start.checked_add(size) {
        Some(e) => e,
        None => {
            return Err(ValidationError::NoFreeSpace);
        },
    };
    if !fits_free(disk, start, end) {
        return Err(ValidationError::NoFreeSpace);
    }
    let count = count_partitions(&disk.layout);
    let full = match disk.table {
        PartitionTable::Mbr => count >= 4,
        PartitionTable::Gpt => count >= 128,
        PartitionTable::NoTable => false,
    };
    if full {
        return Err(ValidationError::TableFull);
    }
    if let PartitionTable::Mbr = disk.table {
        if end.0 as u128 > 4294967296u128 * disk.logical_sector_size as u128 {
            return Err(ValidationError::MbrSizeLimit);
        }
    }
    if let Some(l) = drive_letter {
        if !is_ascii_alpha_exec(l) {
            return Err(ValidationError::InvalidDriveLetter);
        }
        if reserved_letter_exec(l) {
            return Err(ValidationError::DriveLetterReserved);
        }
        if letter_taken_exec(&disk.layout, l, None) {
            return Err(ValidationError::DriveLetterInUse);
        }
    }
    Ok(())
}

/// Checks `req` against `disk`, which must be the *current* state of the
/// disk the request targets. Never touches a disk.
pub fn validate(disk: &Disk, req: &OperationRequest) -> (r: Result<(), ValidationError>)
    ensures
        r is Ok <==> spec_validate(*disk, *req) is Ok,
        r is Err ==> r->Err_0 == spec_validate(*disk, *req)->Err_0,
{
    if disk.read_only {
        return Err(ValidationError::DiskReadOnly);
    }
    if let HealthStatus::Failing = disk.health {
        return Err(ValidationError::DiskFailing);
    }
    match req {
        OperationRequest::CreatePartition { start, size, drive_letter, .. } => {
            let res = validate_create(disk, *start, *size, *drive_letter);
            assert(res == spec_validate_create(*disk, *start, *size, *drive_letter));
            assert(spec_validate(*disk, *req) == spec_validate_create(*disk, *start, *size, *drive_letter));
            assert(res == spec_validate(*disk, *req));
            return res;
        },
        OperationRequest::DeletePartition { partition } => {
            if find_partition(disk, partition).is_err() {
                return Err(ValidationError::PartitionNotFound);
            }
            Ok(())
        },
        OperationRequest::FormatPartition { partition, filesystem, label } => {
            let p = match find_partition(disk, partition) {
                Ok(p) => p,
                Err(_) => return Err(ValidationError::PartitionNotFound),
            };
            if !filesystem.can_format() {
                return Err(ValidationError::FilesystemUnsupported);
            }
            if p.size.0 < fs_min_size_exec(*filesystem) {
                return Err(ValidationError::SizeTooSmall);
            }
            if p.size.0 > fs_max_size_exec(*filesystem) {
                return Err(ValidationError::SizeTooLarge);
            }
            if let Some(l) = label {
                if validate_label(l.as_str()).is_err() {
                    return Err(ValidationError::InvalidLabel);
                }
            }
            Ok(())
        },
        OperationRequest::SetLabel { partition, label } => {
            let p = match find_partition(disk, partition) {
                Ok(p) => p,
                Err(_) => return Err(ValidationError::PartitionNotFound),
            };
            match p.fs {
                FileSystem::Unknown | FileSystem::Unformatted => return Err(ValidationError::FilesystemUnsupported),
                _ => {},
            }
            validate_label(label.as_str())
        },
        OperationRequest::SetDriveLetter { partition, drive_letter } => {
            let p = match find_partition(disk, partition) {
                Ok(p) => p,
                Err(_) => return Err(ValidationError::PartitionNotFound),
            };
            if !is_ascii_alpha_exec(*drive_letter) {
                return Err(ValidationError::InvalidDriveLetter);
            }
            if reserved_letter_exec(*drive_letter) {
                return Err(ValidationError::DriveLetterReserved);
            }
            if letter_taken_exec(&disk.layout, *drive_letter, Some(partition)) {
                return Err(ValidationError::DriveLetterInUse);
            }
            proof {
                lemma_first_partition_index(disk.layout@, partition.0@);
            }
            match p.kind {
                PartitionKind::Efi | PartitionKind::MicrosoftReserved | PartitionKind::Recovery
                | PartitionKind::LinuxSwap => Err(ValidationError::ProtectedPartition),
                _ => Ok(()),
            }
        },
        OperationRequest::EraseDisk { filesystem, label, .. } => {
            if !filesystem.can_format() {
                return Err(ValidationError::FilesystemUnsupported);
            }
            if let Some(l) = label {
                if validate_label(l.as_str()).is_err() {
                    return Err(ValidationError::InvalidLabel);
                }
            }
            Ok(())
        },
    }
}

/// Why an operation could not be carried out.
#[derive(Debug)]
pub enum ExecutionError {
    ConfirmationMissing,
    ValidationFailed(ValidationError),
    Failed(String),
    NotImplemented(String),
    Inventory(InventoryError),
}

/// The message shown for an execution error.
pub open spec fn execution_text(e: ExecutionError) -> Seq<char> {
    match e {
        ExecutionError::ConfirmationMissing => "confirmation is missing or invalid"@,
        ExecutionError::ValidationFailed(v) => "validation failed: "@ + validation_text(v),
        ExecutionError::Failed(m) => "operation failed: "@ + m@,
        ExecutionError::NotImplemented(m) => "not supported yet: "@ + m@,
        ExecutionError::Inventory(i) => "could not read the disk: "@ + inventory_text(i),
    }
}

impl ExecutionError {
    /// The message shown to the user.
    pub fn message(&self) -> (r: String)
        ensures
            r@ == execution_text(*self),
    {
        match self {
            ExecutionError::ConfirmationMissing => String::from_str("confirmation is missing or invalid"),
            ExecutionError::ValidationFailed(v) => {
                let mut m = String::from_str("validation failed: ");
                m.append(v.message().as_str());
                m
            },
            ExecutionError::Failed(s) => {
                let mut m = String::from_str("operation failed: ");
                m.append(s.as_str());
                m
            },
            ExecutionError::NotImplemented(s) => {
                let mut m = String::from_str("not supported yet: ");
                m.append(s.as_str());
                m
            },
            ExecutionError::Inventory(i) => {
                let mut m = String::from_str("could not read the disk: ");
                m.append(i.message().as_str());
                m
            },
        }
    }

    pub fn from_validation(e: ValidationError) -> (r: ExecutionError)
        ensures
            r == ExecutionError::ValidationFailed(e),
    {
        ExecutionError::ValidationFailed(e)
    }

    pub fn from_inventory(e: InventoryError) -> (r: ExecutionError)
        ensures
            r == ExecutionError::Inventory(e),
    {
        ExecutionError::Inventory(e)
    }
}

/// Summary of how far a multi-step plan got.
#[derive(Debug, Clone)]
pub struct ExecutionReport {
    pub disk: DiskId,
    pub applied: usize,
    pub total: usize,
}

/// That the human-facing confirmation click happened.
#[derive(Debug, Clone, Copy)]
pub struct Confirmation {
    pub confirmed: bool,
}

/// The only thing allowed to change a disk. An implementation re-fetches
/// the disk, re-runs `validate` and checks the confirmation before acting,
/// and applies at most one request per call.
pub trait DiskOperationExecutor {
    fn execute(&mut self, req: &OperationRequest, confirmation: Confirmation) -> Result<
        (),
        ExecutionError,
    >;
}

/// What an executor decides before it acts, given the freshly read disk.
pub open spec fn spec_precheck(disk: Disk, req: OperationRequest, confirmation: Confirmation) -> Result<
    (),
    ExecutionError,
> {
    match spec_validate(disk, req) {
        Err(e) => Err(ExecutionError::ValidationFailed(e)),
        Ok(()) => if req.spec_risk().spec_rank() >= 2 && !confirmation.confirmed {
            Err(ExecutionError::ConfirmationMissing)
        } else {
            Ok(())
        },
    }
}

/// Re-validates `req` against the fresh `disk` and checks that a request
/// at High risk or above was confirmed.
pub fn precheck(disk: &Disk, req: &OperationRequest, confirmation: Confirmation) -> (r: Result<
    (),
    ExecutionError,
>)
    ensures
        r == spec_precheck(*disk, *req, confirmation),
{
    match validate(disk, req) {
        Err(e) => Err(ExecutionError::ValidationFailed(e)),
        Ok(()) => {
            if req.risk().needs_confirmation() && !confirmation.confirmed {
                Err(ExecutionError::ConfirmationMissing)
            } else {
                Ok(())
            }
        },
    }
}

/// Drive letters, on a writable disk that is not failing, for a partition
/// the disk has: A and B (either case) are reserved; a letter C to Z
/// (either case) another partition of the disk holds is refused as in
/// use; EFI, MSR, recovery and swap partitions get none; any other such
/// letter is given.
pub proof fn lemma_drive_letter_rules(d: Disk, p: PartitionId, c: char)
    requires
        !d.read_only,
        d.health != HealthStatus::Failing,
        has_partition(d.layout@, p.0@),
    ensures
        ({
            let r = spec_validate(d, OperationRequest::SetDriveLetter { partition: p, drive_letter: c });
            let k = first_partition(d.layout@, p.0@).kind;
            let taken = exists|i: int| 0 <= i < d.layout@.len() && #[trigger] other_holds(d.layout@[i], p.0@, c);
            let protected = k is Efi || k is MicrosoftReserved || k is Recovery || k is LinuxSwap;
            &&& (c == 'A' || c == 'a' || c == 'B' || c == 'b') ==> r == Err::<(), ValidationError>(
                ValidationError::DriveLetterReserved,
            )
            &&& ('C' <= c <= 'Z' || 'c' <= c <= 'z') && taken ==> r == Err::<(), ValidationError>(
                ValidationError::DriveLetterInUse,
            )
            &&& ('C' <= c <= 'Z' || 'c' <= c <= 'z') && !taken && protected ==> r == Err::<(), ValidationError>(
                ValidationError::ProtectedPartition,
            )
            &&& ('C' <= c <= 'Z' || 'c' <= c <= 'z') && !taken && !protected ==> r == Ok::<(), ValidationError>(())
            &&& !('A' <= c <= 'Z' || 'a' <= c <= 'z') ==> r == Err::<(), ValidationError>(
                ValidationError::InvalidDriveLetter,
            )
        }),
{
    let taken = exists|i: int| 0 <= i < d.layout@.len() && #[trigger] other_holds(d.layout@[i], p.0@, c);
    if taken {
        let i = choose|i: int| 0 <= i < d.layout@.len() && #[trigger] other_holds(d.layout@[i], p.0@, c);
        assert(letter_at(d.layout@[i], c, Some(p.0@)));
    }
    if letter_taken(d.layout@, c, Some(p.0@)) {
        let i = choose|i: int| 0 <= i < d.layout@.len() && #[trigger] letter_at(d.layout@[i], c, Some(p.0@));
        assert(other_holds(d.layout@[i], p.0@, c));
    }
}

/// Segment `s` is a partition other than `id` whose drive letter is `c`
/// in either case.
pub open spec fn other_holds(s: Segment, id: Seq<char>, c: char) -> bool {
    match s {
        Segment::Partition(q) => q.id.0@ != id && match q.drive_letter {
            Some(x) => ascii_upper(x) == ascii_upper(c),
            None => false,
        },
        Segment::Unallocated { .. } => false,
    }
}

/// Formatting checks the size against the file system, for a partition
/// the disk has on a writable disk that is not failing: below 1 MiB
/// nothing fits; NTFS needs 8 MiB, FAT32 33 MiB, ext2/3/4 16 MiB, Btrfs
/// 128 MiB and XFS 300 MiB; FAT32 holds at most 2 TiB.
pub proof fn lemma_format_size_rules(d: Disk, p: PartitionId, fs: FileSystem, label: Option<String>)
    requires
        !d.read_only,
        d.health != HealthStatus::Failing,
        has_partition(d.layout@, p.0@),
        !(fs is Unknown),
    ensures
        ({
            let r = spec_validate(d, OperationRequest::FormatPartition { partition: p, filesystem: fs, label });
            let n = first_partition(d.layout@, p.0@).size.0;
            &&& n < 1048576 ==> r == Err::<(), ValidationError>(ValidationError::SizeTooSmall)
            &&& fs is Ntfs && n < 8 * 1048576 ==> r == Err::<(), ValidationError>(ValidationError::SizeTooSmall)
            &&& fs is Fat32 && n < 33 * 1048576 ==> r == Err::<(), ValidationError>(ValidationError::SizeTooSmall)
            &&& (fs is Ext2 || fs is Ext3 || fs is Ext4) && n < 16 * 1048576 ==> r == Err::<(), ValidationError>(
                ValidationError::SizeTooSmall,
            )
            &&& fs is Btrfs && n < 128 * 1048576 ==> r == Err::<(), ValidationError>(ValidationError::SizeTooSmall)
            &&& fs is Xfs && n < 300 * 1048576 ==> r == Err::<(), ValidationError>(ValidationError::SizeTooSmall)
            &&& fs is Fat32 && n > 2 * 1099511627776 ==> r == Err::<(), ValidationError>(
                ValidationError::SizeTooLarge,
            )
            &&& fs is Fat32 && 33 * 1048576 <= n <= 2 * 1099511627776 && label is None ==> r is Ok
            &&& fs is Ntfs && n >= 8 * 1048576 && label is None ==> r is Ok
        }),
{
}

/// Creating a partition keeps to the partition table, for a range that is
/// aligned, at least 1 MiB and inside free space: an MBR disk takes 4
/// partitions and a GPT disk 128; MBR addresses no byte at or past 2^32
/// sectors.
pub proof fn lemma_create_table_rules(d: Disk, start: ByteSize, size: ByteSize, letter: Option<char>)
    requires
        start.0 % 1048576 == 0,
        size.0 % 1048576 == 0,
        size.0 >= 1048576,
        start.0 + size.0 <= u64::MAX,
        fits_in_free_region(d.layout@, start.0, start.0 + size.0),
    ensures
        ({
            let r = spec_validate_create(d, start, size, letter);
            &&& d.table == PartitionTable::Mbr && partition_count(d.layout@) >= 4 ==> r == Err::<(), ValidationError>(
                ValidationError::TableFull,
            )
            &&& d.table == PartitionTable::Gpt && partition_count(d.layout@) >= 128 ==> r == Err::<(), ValidationError>(
                ValidationError::TableFull,
            )
            &&& d.table == PartitionTable::Gpt && partition_count(d.layout@) < 128 && letter is None ==> r is Ok
            &&& d.table == PartitionTable::Mbr && partition_count(d.layout@) < 4 && start.0 + size.0 > 4294967296
                * d.logical_sector_size ==> r == Err::<(), ValidationError>(ValidationError::MbrSizeLimit)
            &&& d.table == PartitionTable::Mbr && partition_count(d.layout@) < 4 && start.0 + size.0 <= 4294967296
                * d.logical_sector_size && letter is None ==> r is Ok
        }),
{
}

} // verus!
