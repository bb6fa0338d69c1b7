//! What the macOS executor runs for an operation: one `diskutil` call with
//! a fixed argument list (no shell).
//!
//! `diskutil` has no "create a partition at this offset": it can only add
//! a partition directly after an existing one (`addPartition`), or lay out
//! an empty disk from scratch (`partitionDisk`). Free space in front of the
//! first partition therefore can't be used on macOS.
use vstd::prelude::*;
use crate::models::{decimal, decimal_string, push_char, push_decimal, Disk, FileSystem, PartitionTable, Segment};
use crate::operations::{
    find_partition, has_partition, precheck, spec_precheck, Confirmation, ExecutionError,
    OperationRequest,
};
use crate::text::strings_view;
use super::{call_view, text, tool, ToolCall};

verus! {

/// The upper case std gives a text (`str::to_uppercase`: the Unicode
/// `Uppercase` mapping of each character).
pub uninterp spec fn unicode_uppercase(s: Seq<char>) -> Seq<char>;

/// Calls `str::to_uppercase`; the contract names its result.
#[verifier::external_body]
fn to_uppercase(s: &str) -> (r: String)
    ensures
        r@ == unicode_uppercase(s@),
{
    s.to_uppercase()
}

/// `diskutil`'s name for a file system it can create.
pub open spec fn spec_diskutil_format(fs: FileSystem) -> Option<Seq<char>> {
    match fs {
        FileSystem::Apfs => Some("APFS"@),
        FileSystem::HfsPlus => Some("JHFS+"@),
        FileSystem::ExFat => Some("ExFAT"@),
        FileSystem::Fat32 => Some("FAT32"@),
        _ => None,
    }
}

/// Why a file system can't be created on macOS.
pub open spec fn formats_text() -> Seq<char> {
    "macOS can only create APFS, Mac OS Extended, exFAT and FAT32"@
}

/// Why free space in front of the first partition can't be used.
pub open spec fn front_text() -> Seq<char> {
    "macOS can only add a partition directly after an existing one \u{2014} free space in front of the first partition can't be used"@
}

fn diskutil_format(fs: FileSystem) -> (r: Result<&'static str, ExecutionError>)
    ensures
        match spec_diskutil_format(fs) {
            Some(f) => r matches Ok(s) && s@ == f,
            None => refused(r, formats_text()),
        },
{
    match fs {
        FileSystem::Apfs => Ok("APFS"),
        FileSystem::HfsPlus => Ok("JHFS+"),
        FileSystem::ExFat => Ok("ExFAT"),
        FileSystem::Fat32 => Ok("FAT32"),
        _ => Err(
            ExecutionError::NotImplemented(
                text("macOS can only create APFS, Mac OS Extended, exFAT and FAT32"),
            ),
        ),
    }
}

/// The error is `NotImplemented` with message `m`.
pub open spec fn refused<T>(r: Result<T, ExecutionError>, m: Seq<char>) -> bool {
    r matches Err(ExecutionError::NotImplemented(x)) && x@ == m
}

/// The error is `Failed` with message `m`.
pub open spec fn failed_with<T>(r: Result<T, ExecutionError>, m: Seq<char>) -> bool {
    r matches Err(ExecutionError::Failed(x)) && x@ == m
}

pub open spec fn opt_text(label: Option<String>) -> Option<Seq<char>> {
    match label {
        Some(l) => Some(l@),
        None => None,
    }
}

/// The volume name `diskutil` gets: the label, or `Untitled` where there
/// is none; FAT names in upper case.
pub open spec fn spec_volume_name(fs: FileSystem, label: Option<Seq<char>>) -> Seq<char> {
    let name = match label {
        Some(l) => if l.len() > 0 {
            l
        } else {
            "Untitled"@
        },
        None => "Untitled"@,
    };
    if fs == FileSystem::Fat32 {
        unicode_uppercase(name)
    } else {
        name
    }
}

fn volume_name(fs: FileSystem, label: &Option<String>) -> (r: String)
    ensures
        r@ == spec_volume_name(fs, opt_text(*label)),
{
    let name: &str = match label {
        Some(l) => if l.unicode_len() > 0 {
            l.as_str()
        } else {
            "Untitled"
        },
        None => "Untitled",
    };
    match fs {
        FileSystem::Fat32 => to_uppercase(name),
        _ => text(name),
    }
}

/// `/dev/disk4` and 2 give `/dev/disk4s2`.
pub open spec fn spec_partition_device(disk_id: Seq<char>, number: u32) -> Seq<char> {
    disk_id + "s"@ + decimal(number as nat)
}

fn partition_device(disk: &Disk, number: u32) -> (r: String)
    ensures
        r@ == spec_partition_device(disk.id.0@, number),
{
    let mut s = text(disk.id.0.as_str());
    s.append("s");
    push_decimal(&mut s, number as u64);
    s
}

/// A size for `diskutil` in exact bytes (its K/M/G suffixes are powers of
/// ten): `104857600B`.
pub open spec fn size_text(n: u64) -> Seq<char> {
    decimal(n as nat) + "B"@
}

fn size_arg(n: u64) -> (r: String)
    ensures
        r@ == size_text(n),
{
    let mut s = decimal_string(n);
    s.append("B");
    s
}

/// The characters of `/dev/disk`.
pub open spec fn disk_prefix() -> Seq<char> {
    seq!['/', 'd', 'e', 'v', '/', 'd', 'i', 's', 'k']
}

/// The first index from `i` on where `/dev/disk` starts in `s`, or the
/// length of `s`.
pub open spec fn first_disk_prefix(s: Seq<char>, i: int) -> int
    decreases s.len() - i,
{
    if i < 0 || i + 9 > s.len() {
        s.len() as int
    } else if s.subrange(i, i + 9) == disk_prefix() {
        i
    } else {
        first_disk_prefix(s, i + 1)
    }
}

/// `/dev/disk4` becomes `/dev/rdisk4`: the first `/dev/disk` gets an `r`,
/// which names the unbuffered raw device.
pub open spec fn spec_raw_device_path(s: Seq<char>) -> Seq<char> {
    let i = first_disk_prefix(s, 0);
    if i + 9 <= s.len() {
        s.take(i) + seq!['/', 'd', 'e', 'v', '/', 'r', 'd', 'i', 's', 'k'] + s.skip(i + 9)
    } else {
        s
    }
}

proof fn lemma_first_disk_prefix(s: Seq<char>, i: int)
    requires
        0 <= i,
    ensures
        first_disk_prefix(s, i) == s.len() || (i <= first_disk_prefix(s, i) && first_disk_prefix(s, i) + 9 <= s.len()),
    decreases s.len() - i,
{
    if i + 9 <= s.len() && s.subrange(i, i + 9) != disk_prefix() {
        lemma_first_disk_prefix(s, i + 1);
    }
}

fn prefix_at(s: &str, n: usize, i: usize) -> (r: bool)
    requires
        n == s@.len(),
        i + 9 <= n,
    ensures
        r == (s@.subrange(i as int, i + 9) == disk_prefix()),
{
    let p: Vec<char> = vec!['/', 'd', 'e', 'v', '/', 'd', 'i', 's', 'k'];
    assert(p@ =~= disk_prefix());
    let mut k: usize = 0;
    while k < 9
        invariant
            k <= 9,
            n == s@.len(),
            i + 9 <= n,
            p@ == disk_prefix(),
            forall|j: int| 0 <= j < k ==> s@[i + j] == p@[j],
        decreases 9 - k,
    {
        if s.get_char(i + k) != p[k] {
            assert(s@.subrange(i as int, i + 9)[k as int] != disk_prefix()[k as int]);
            return false;
        }
        k = k + 1;
    }
    assert(s@.subrange(i as int, i + 9) =~= disk_prefix());
    true
}

/// The raw device node of a disk.
pub fn raw_device_path(disk_path: &str) -> (r: String)
    ensures
        r@ == spec_raw_device_path(disk_path@),
{
    let n = disk_path.unicode_len();
    let mut i: usize = 0;
    while i < n && n - i >= 9 && !prefix_at(disk_path, n, i)
        invariant
            n == disk_path@.len(),
            i <= n,
            first_disk_prefix(disk_path@, 0) == first_disk_prefix(disk_path@, i as int),
        decreases n - i,
    {
        i = i + 1;
    }
    if i < n && n - i >= 9 {
        let mut s = text(disk_path.substring_char(0, i));
        s.append("/dev/rdisk");
        s.append(disk_path.substring_char(i + 9, n));
        proof {
            reveal_strlit("/dev/rdisk");
            assert("/dev/rdisk"@ =~= seq!['/', 'd', 'e', 'v', '/', 'r', 'd', 'i', 's', 'k']);
        }
        s
    } else {
        proof {
            lemma_first_disk_prefix(disk_path@, 0);
        }
        text(disk_path)
    }
}

/// Start and number of the partition a new one goes after: among the
/// first `k` segments, the last of those starting furthest in front of
/// `start`.
pub open spec fn before_start(layout: Seq<Segment>, start: u64, k: int) -> Option<(u64, u32)>
    decreases k,
{
    if k <= 0 {
        None
    } else {
        let b = before_start(layout, start, k - 1);
        match layout[k - 1] {
            Segment::Partition(p) => if p.start.0 < start && (b is None || p.start.0 >= b->Some_0.0) {
                Some((p.start.0, p.number))
            } else {
                b
            },
            Segment::Unallocated { .. } => b,
        }
    }
}

/// The layout holds no partition.
pub open spec fn no_partitions(layout: Seq<Segment>) -> bool {
    forall|i: int| 0 <= i < layout.len() ==> #[trigger] layout[i] is Unallocated
}

/// The end of the first free segment from `i` on that holds `start`, or
/// the end of the new partition where none does.
pub open spec fn free_end_at(layout: Seq<Segment>, start: u64, size: u64, i: int) -> int
    decreases layout.len() - i,
{
    if i < 0 || i >= layout.len() {
        start + size
    } else {
        match layout[i] {
            Segment::Unallocated { start: s, size: z } => if s.0 <= start < s.0 + z.0 {
                s.0 + z.0
            } else {
                free_end_at(layout, start, size, i + 1)
            },
            Segment::Partition(_) => free_end_at(layout, start, size, i + 1),
        }
    }
}

/// The arguments are `a`.
pub open spec fn args_are(r: Result<Vec<String>, ExecutionError>, a: Seq<Seq<char>>) -> bool {
    r matches Ok(v) && strings_view(v@) == a
}

/// A partition request: refused where the partition isn't on the disk,
/// else `args` of the number of a partition with that id.
pub open spec fn on_partition(
    r: Result<Vec<String>, ExecutionError>,
    disk: Disk,
    id: Seq<char>,
    args: spec_fn(u32) -> Seq<Seq<char>>,
) -> bool {
    if !has_partition(disk.layout@, id) {
        failed_with(r, "partition "@ + id + " not found"@)
    } else {
        exists|k: int|
            0 <= k < disk.layout@.len() && #[trigger] disk.layout@[k] is Partition
                && disk.layout@[k]->Partition_0.id.0@ == id && args_are(
                r,
                args(disk.layout@[k]->Partition_0.number),
            )
    }
}

/// The `diskutil` arguments for creating a partition.
pub open spec fn create_args_ok(
    r: Result<Vec<String>, ExecutionError>,
    disk: Disk,
    start: u64,
    size: u64,
    fs: FileSystem,
    label: Option<Seq<char>>,
) -> bool {
    match spec_diskutil_format(fs) {
        None => refused(r, formats_text()),
        Some(f) => {
            let name = spec_volume_name(fs, label);
            match before_start(disk.layout@, start, disk.layout@.len() as int) {
                Some((_, n)) => args_are(
                    r,
                    seq!["addPartition"@, spec_partition_device(disk.id.0@, n), f, name, size_text(size)],
                ),
                None => if no_partitions(disk.layout@) {
                    let scheme = if disk.table == PartitionTable::Mbr {
                        "MBR"@
                    } else {
                        "GPT"@
                    };
                    let head = seq!["partitionDisk"@, disk.id.0@, scheme, f, name];
                    if start + size >= free_end_at(disk.layout@, start, size, 0) {
                        args_are(r, head.push("R"@))
                    } else {
                        args_are(r, head + seq![size_text(size), "Free Space"@, "%noformat%"@, "R"@])
                    }
                } else {
                    refused(r, front_text())
                },
            }
        },
    }
}

/// What `diskutil_args` gives for `req` on `disk`.
pub open spec fn diskutil_args_ok(r: Result<Vec<String>, ExecutionError>, disk: Disk, req: OperationRequest) -> bool {
    match req {
        OperationRequest::CreatePartition { start, size, filesystem, label, .. } => create_args_ok(
            r,
            disk,
            start.0,
            size.0,
            filesystem,
            opt_text(label),
        ),
        OperationRequest::DeletePartition { partition } => on_partition(
            r,
            disk,
            partition.0@,
            |n: u32| seq!["eraseVolume"@, "free"@, "free"@, spec_partition_device(disk.id.0@, n)],
        ),
        OperationRequest::FormatPartition { partition, filesystem, label } => if !has_partition(
            disk.layout@,
            partition.0@,
        ) {
            failed_with(r, "partition "@ + partition.0@ + " not found"@)
        } else {
            match spec_diskutil_format(filesystem) {
                None => refused(r, formats_text()),
                Some(f) => on_partition(
                    r,
                    disk,
                    partition.0@,
                    |n: u32|
                        seq![
                            "eraseVolume"@,
                            f,
                            spec_volume_name(filesystem, opt_text(label)),
                            spec_partition_device(disk.id.0@, n),
                        ],
                ),
            }
        },
        OperationRequest::SetLabel { partition, label } => on_partition(
            r,
            disk,
            partition.0@,
            |n: u32| seq!["renameVolume"@, spec_partition_device(disk.id.0@, n), label@],
        ),
        OperationRequest::SetDriveLetter { .. } => refused(r, "drive letters only exist on Windows"@),
        OperationRequest::EraseDisk { .. } => refused(r, "erasing a whole disk is not supported on macOS"@),
    }
}

/// The partition with id `id`, its number, as `on_partition` needs.
fn partition_number(disk: &Disk, id: &crate::models::PartitionId) -> (r: Result<u32, ExecutionError>)
    ensures
        !has_partition(disk.layout@, id.0@) ==> failed_with(r, "partition "@ + id.0@ + " not found"@),
        has_partition(disk.layout@, id.0@) ==> (r matches Ok(n) && exists|k: int|
            0 <= k < disk.layout@.len() && #[trigger] disk.layout@[k] is Partition
                && disk.layout@[k]->Partition_0.id.0@ == id.0@ && disk.layout@[k]->Partition_0.number == n),
{
    match find_partition(disk, id) {
        Ok(p) => Ok(p.number),
        Err(_) => {
            let mut m = text("partition ");
            m.append(id.0.as_str());
            m.append(" not found");
            Err(ExecutionError::Failed(m))
        },
    }
}

fn strings4(a: String, b: String, c: String, d: String) -> (r: Vec<String>)
    ensures
        strings_view(r@) == seq![a@, b@, c@, d@],
{
    let mut v: Vec<String> = Vec::new();
    v.push(a);
    v.push(b);
    v.push(c);
    v.push(d);
    assert(strings_view(v@) =~= seq![a@, b@, c@, d@]);
    v
}

/// The `diskutil` arguments that carry out `req` on `disk`.
pub fn diskutil_args(disk: &Disk, req: &OperationRequest) -> (r: Result<Vec<String>, ExecutionError>)
    ensures
        diskutil_args_ok(r, *disk, *req),
{
    match req {
        OperationRequest::CreatePartition { start, size, filesystem, label, .. } => {
            create_args(disk, start.0, size.0, *filesystem, label)
        },
        OperationRequest::DeletePartition { partition } => {
            let n = match partition_number(disk, partition) {
                Ok(n) => n,
                Err(e) => return Err(e),
            };
            let v = strings4(text("eraseVolume"), text("free"), text("free"), partition_device(disk, n));
            proof {
                let f = |n: u32| seq!["eraseVolume"@, "free"@, "free"@, spec_partition_device(disk.id.0@, n)];
                assert(strings_view(v@) == f(n));
            }
            Ok(v)
        },
        OperationRequest::FormatPartition { partition, filesystem, label } => {
            let n = match partition_number(disk, partition) {
                Ok(n) => n,
                Err(e) => return Err(e),
            };
            let f = match diskutil_format(*filesystem) {
                Ok(f) => f,
                Err(e) => return Err(e),
            };
            let v = strings4(text("eraseVolume"), text(f), volume_name(*filesystem, label), partition_device(disk, n));
            Ok(v)
        },
        OperationRequest::SetLabel { partition, label } => {
            let n = match partition_number(disk, partition) {
                Ok(n) => n,
                Err(e) => return Err(e),
            };
            let mut v: Vec<String> = Vec::new();
            v.push(text("renameVolume"));
            v.push(partition_device(disk, n));
            v.push(text(label.as_str()));
            assert(strings_view(v@) =~= seq!["renameVolume"@, spec_partition_device(disk.id.0@, n), label@]);
            Ok(v)
        },
        OperationRequest::SetDriveLetter { .. } => Err(
            ExecutionError::NotImplemented(text("drive letters only exist on Windows")),
        ),
        OperationRequest::EraseDisk { .. } => Err(
            ExecutionError::NotImplemented(text("erasing a whole disk is not supported on macOS")),
        ),
    }
}

fn create_args(disk: &Disk, start: u64, size: u64, fs: FileSystem, label: &Option<String>) -> (r: Result<
    Vec<String>,
    ExecutionError,
>)
    ensures
        create_args_ok(r, *disk, start, size, fs, opt_text(*label)),
{
    let f = match diskutil_format(fs) {
        Ok(f) => f,
        Err(e) => return Err(e),
    };
    let name = volume_name(fs, label);
    let layout = &disk.layout;
    // The partition the new one goes after, and whether there is any.
    let mut best: Option<(u64, u32)> = None;
    let mut any = false;
    let mut i: usize = 0;
    while i < layout.len()
        invariant
            i <= layout.len(),
            layout == &disk.layout,
            best == before_start(layout@, start, i as int),
            any <==> exists|j: int| 0 <= j < i && #[trigger] layout@[j] is Partition,
        decreases layout.len() - i,
    {
        match &layout[i] {
            Segment::Partition(p) => {
                any = true;
                if p.start.0 < start {
                    match best {
                        None => {
                            best = Some((p.start.0, p.number));
                        },
                        Some((s, _)) => {
                            if p.start.0 >= s {
                                best = Some((p.start.0, p.number));
                            }
                        },
                    }
                }
            },
            Segment::Unallocated { .. } => {},
        }
        i = i + 1;
    }
    match best {
        Some((_, n)) => {
            let mut v: Vec<String> = Vec::new();
            v.push(text("addPartition"));
            v.push(partition_device(disk, n));
            v.push(text(f));
            v.push(name);
            v.push(size_arg(size));
            assert(strings_view(v@) =~= seq![
                "addPartition"@,
                spec_partition_device(disk.id.0@, n),
                f@,
                spec_volume_name(fs, opt_text(*label)),
                size_text(size),
            ]);
            Ok(v)
        },
        None => {
            if any {
                return Err(
                    ExecutionError::NotImplemented(
                        text(
                            "macOS can only add a partition directly after an existing one \u{2014} free space in front of the first partition can't be used",
                        ),
                    ),
                );
            }
            let scheme = match disk.table {
                PartitionTable::Mbr => "MBR",
                _ => "GPT",
            };
            // The end of the free segment the new partition starts in.
            let mut end: u128 = start as u128 + size as u128;
            let mut found = false;
            let mut j: usize = 0;
            while j < layout.len() && !found
                invariant
                    j <= layout.len(),
                    layout == &disk.layout,
                    free_end_at(layout@, start, size, 0) == free_end_at(layout@, start, size, j as int),
                    found ==> j < layout.len() && end == free_end_at(layout@, start, size, j as int),
                    !found ==> end == start + size,
                decreases layout.len() - j + if found { 0int } else { 1int },
            {
                match &layout[j] {
                    Segment::Unallocated { start: s, size: z } => {
                        if s.0 <= start && (start as u128) < s.0 as u128 + z.0 as u128 {
                            end = s.0 as u128 + z.0 as u128;
                            found = true;
                        }
                    },
                    Segment::Partition(_) => {},
                }
                if !found {
                    j = j + 1;
                }
            }
            assert(end == free_end_at(layout@, start, size, 0));
            let mut v: Vec<String> = Vec::new();
            v.push(text("partitionDisk"));
            v.push(text(disk.id.0.as_str()));
            v.push(text(scheme));
            v.push(text(f));
            v.push(name);
            let ghost head = seq![
                "partitionDisk"@,
                disk.id.0@,
                scheme@,
                f@,
                spec_volume_name(fs, opt_text(*label)),
            ];
            assert(strings_view(v@) =~= head);
            if start as u128 + size as u128 >= end {
                v.push(text("R"));
                assert(strings_view(v@) =~= head.push("R"@));
            } else {
                v.push(size_arg(size));
                v.push(text("Free Space"));
                v.push(text("%noformat%"));
                v.push(text("R"));
                assert(strings_view(v@) =~= head + seq![size_text(size), "Free Space"@, "%noformat%"@, "R"@]);
            }
            assert(no_partitions(layout@));
            Ok(v)
        },
    }
}

/// The macOS executor's decisions: it checks the request against the disk
/// as just read, then says which `diskutil` call carries it out.
pub struct MacDiskExecutor;

impl MacDiskExecutor {
    pub fn plan(&self, disk: &Disk, req: &OperationRequest, confirmation: Confirmation) -> (r: Result<
        ToolCall,
        ExecutionError,
    >)
        ensures
            spec_precheck(*disk, *req, confirmation) is Err ==> r is Err && r->Err_0 == spec_precheck(
                *disk,
                *req,
                confirmation,
            )->Err_0,
            spec_precheck(*disk, *req, confirmation) is Ok ==> exists|a: Result<Vec<String>, ExecutionError>|
                diskutil_args_ok(a, *disk, *req) && match a {
                    Ok(v) => r matches Ok(c) && call_view(c) == ("diskutil"@, strings_view(v@)),
                    Err(e) => r == Err::<ToolCall, ExecutionError>(e),
                },
    {
        match precheck(disk, req, confirmation) {
            Err(e) => return Err(e),
            Ok(()) => {},
        }
        let a = diskutil_args(disk, req);
        match a {
            Ok(v) => {
                let c = tool("diskutil", v);
                Ok(c)
            },
            Err(e) => Err(e),
        }
    }
}

/// Before writing a whole-disk image: unmount every volume on the disk.
pub fn prepare_raw_write(disk: &Disk) -> (r: ToolCall)
    ensures
        call_view(r) == ("diskutil"@, seq!["unmountDisk"@, "force"@, disk.id.0@]),
{
    let mut v: Vec<String> = Vec::new();
    v.push(text("unmountDisk"));
    v.push(text("force"));
    v.push(text(disk.id.0.as_str()));
    let r = tool("diskutil", v);
    assert(call_view(r).1 =~= seq!["unmountDisk"@, "force"@, disk.id.0@]);
    r
}

/// After writing a whole-disk image: mount what macOS can read of it.
pub fn finish_raw_write(disk: &Disk) -> (r: ToolCall)
    ensures
        call_view(r) == ("diskutil"@, seq!["mountDisk"@, disk.id.0@]),
{
    let mut v: Vec<String> = Vec::new();
    v.push(text("mountDisk"));
    v.push(text(disk.id.0.as_str()));
    let r = tool("diskutil", v);
    assert(call_view(r).1 =~= seq!["mountDisk"@, disk.id.0@]);
    r
}

/// The format `diskutil` is asked for names the file system requested:
/// APFS, JHFS+ for Mac OS Extended, ExFAT and FAT32; macOS creates no
/// other file system.
pub proof fn lemma_diskutil_formats(fs: FileSystem)
    ensures
        fs == FileSystem::Apfs ==> spec_diskutil_format(fs) == Some("APFS"@),
        fs == FileSystem::HfsPlus ==> spec_diskutil_format(fs) == Some("JHFS+"@),
        fs == FileSystem::ExFat ==> spec_diskutil_format(fs) == Some("ExFAT"@),
        fs == FileSystem::Fat32 ==> spec_diskutil_format(fs) == Some("FAT32"@),
        !((fs == FileSystem::Apfs) || (fs == FileSystem::HfsPlus) || (fs == FileSystem::ExFat) || (fs == FileSystem::Fat32)) ==> spec_diskutil_format(fs) is None,
{
    reveal_strlit("APFS");
    reveal_strlit("ExFAT");
    reveal_strlit("FAT32");
    reveal_strlit("JHFS+");
    assert("APFS"@.len() != "ExFAT"@.len());
    assert("APFS"@.len() != "FAT32"@.len());
    assert("APFS"@.len() != "JHFS+"@.len());
    assert("ExFAT"@[0] != "FAT32"@[0]);
    assert("ExFAT"@[0] != "JHFS+"@[0]);
    assert("FAT32"@[0] != "JHFS+"@[0]);
}

/// What `diskutil` is asked, for every request on a partition the disk
/// has: deleting erases the volume to free space, formatting erases it
/// with the requested file system's format and the label (`Untitled`
/// without one), relabelling renames it; each acts on a slice of this
/// disk (`<disk>s<number>`). Drive letters and erasing whole disks are
/// refused.
pub proof fn lemma_diskutil_laws(r: Result<Vec<String>, ExecutionError>, disk: Disk, req: OperationRequest)
    requires
        diskutil_args_ok(r, disk, req),
    ensures
        match req {
            OperationRequest::DeletePartition { partition } => has_partition(disk.layout@, partition.0@) ==> (r matches Ok(
                v,
            ) && strings_view(v@).len() == 4 && strings_view(v@).take(3) == seq!["eraseVolume"@, "free"@, "free"@]
                && strings_view(v@)[3].take(disk.id.0@.len() + 1int) == disk.id.0@ + "s"@),
            OperationRequest::FormatPartition { partition, filesystem, label } => has_partition(
                disk.layout@,
                partition.0@,
            ) ==> match spec_diskutil_format(filesystem) {
                Some(f) => r matches Ok(v) && strings_view(v@).len() == 4 && strings_view(v@)[0] == "eraseVolume"@
                    && strings_view(v@)[1] == f && (label is None && filesystem != FileSystem::Fat32 ==> strings_view(
                    v@,
                )[2] == "Untitled"@) && strings_view(v@)[3].take(disk.id.0@.len() + 1int) == disk.id.0@ + "s"@,
                None => r is Err,
            },
            OperationRequest::SetLabel { partition, label } => has_partition(disk.layout@, partition.0@) ==> (r matches Ok(
                v,
            ) && strings_view(v@).len() == 3 && strings_view(v@)[0] == "renameVolume"@ && strings_view(v@)[2] == label@
                && strings_view(v@)[1].take(disk.id.0@.len() + 1int) == disk.id.0@ + "s"@),
            OperationRequest::SetDriveLetter { .. } => r is Err,
            OperationRequest::EraseDisk { .. } => r is Err,
            _ => true,
        },
{
    let dev = |n: u32| spec_partition_device(disk.id.0@, n);
    assert forall|n: u32| (#[trigger] dev(n)).take(disk.id.0@.len() + 1int) == disk.id.0@ + "s"@ by {
        assert(dev(n) == (disk.id.0@ + "s"@) + decimal(n as nat));
        assert((disk.id.0@ + "s"@ + decimal(n as nat)).take(disk.id.0@.len() + 1int) =~= disk.id.0@ + "s"@) by {
            reveal_strlit("s");
        }
    }
    match req {
        OperationRequest::DeletePartition { partition } => {
            if has_partition(disk.layout@, partition.0@) {
                let k = choose|k: int|
                    0 <= k < disk.layout@.len() && #[trigger] disk.layout@[k] is Partition
                        && disk.layout@[k]->Partition_0.id.0@ == partition.0@ && args_are(
                        r,
                        seq!["eraseVolume"@, "free"@, "free"@, spec_partition_device(disk.id.0@, disk.layout@[k]->Partition_0.number)],
                    );
                let n = disk.layout@[k]->Partition_0.number;
                assert(dev(n).take(disk.id.0@.len() + 1int) == disk.id.0@ + "s"@);
                assert(strings_view(r->Ok_0@).take(3) =~= seq!["eraseVolume"@, "free"@, "free"@]);
            }
        },
        OperationRequest::FormatPartition { partition, filesystem, label } => {
            if has_partition(disk.layout@, partition.0@) {
                if let Some(f) = spec_diskutil_format(filesystem) {
                    let k = choose|k: int|
                        0 <= k < disk.layout@.len() && #[trigger] disk.layout@[k] is Partition
                            && disk.layout@[k]->Partition_0.id.0@ == partition.0@ && args_are(
                            r,
                            seq![
                                "eraseVolume"@,
                                f,
                                spec_volume_name(filesystem, opt_text(label)),
                                spec_partition_device(disk.id.0@, disk.layout@[k]->Partition_0.number),
                            ],
                        );
                    let n = disk.layout@[k]->Partition_0.number;
                    assert(dev(n).take(disk.id.0@.len() + 1int) == disk.id.0@ + "s"@);
                }
            }
        },
        OperationRequest::SetLabel { partition, label } => {
            if has_partition(disk.layout@, partition.0@) {
                let k = choose|k: int|
                    0 <= k < disk.layout@.len() && #[trigger] disk.layout@[k] is Partition
                        && disk.layout@[k]->Partition_0.id.0@ == partition.0@ && args_are(
                        r,
                        seq!["renameVolume"@, spec_partition_device(disk.id.0@, disk.layout@[k]->Partition_0.number), label@],
                    );
                let n = disk.layout@[k]->Partition_0.number;
                assert(dev(n).take(disk.id.0@.len() + 1int) == disk.id.0@ + "s"@);
            }
        },
        _ => {},
    }
}

} // verus!
