//! What the Windows executor runs for an operation: one fixed PowerShell
//! script per kind of operation, with every value (disk number, offsets,
//! label, drive letter) passed as a parameter of its own.
use vstd::prelude::*;
use crate::flash::fat_names::chars_of;
use crate::models::{decimal, push_char, push_decimal, Disk, FileSystem, Segment};
use crate::operations::{
    find_partition, has_partition, precheck, spec_precheck, Confirmation, ExecutionError, OperationRequest,
};
use crate::platform::linux::digits_value;
use crate::text::strings_view;
use super::text;

verus! {

/// The scripts the Windows executor runs.
#[derive(Debug, Clone, Copy, PartialEq, Eq, Structural)]
pub enum Script {
    CreatePartition,
    DeletePartition,
    FormatPartition,
    SetLabel,
    SetDriveLetter,
}

/// A script with its parameters, each one argument.
#[derive(Debug)]
pub struct ScriptCall {
    pub script: Script,
    pub params: Vec<String>,
}

/// Whether `pat` occurs in `s` at `i`.
pub open spec fn occurs_at(s: Seq<char>, pat: Seq<char>, i: int) -> bool {
    0 <= i && i + pat.len() <= s.len() && s.subrange(i, i + pat.len()) == pat
}

/// The last position at or before `i` where `pat` occurs, or -1.
pub open spec fn last_occurrence(s: Seq<char>, pat: Seq<char>, i: int) -> int
    decreases i + 1,
{
    if i < 0 {
        -1
    } else if occurs_at(s, pat, i) {
        i
    } else {
        last_occurrence(s, pat, i - 1)
    }
}

/// What follows the last `PhysicalDrive` in an id (all of it without one).
pub open spec fn drive_suffix(id: Seq<char>) -> Seq<char> {
    let pat = "PhysicalDrive"@;
    let i = last_occurrence(id, pat, id.len() - pat.len());
    if i < 0 {
        id
    } else {
        id.skip(i + pat.len())
    }
}

/// Every character is an ASCII digit.
pub open spec fn all_digits(d: Seq<char>) -> bool {
    forall|i: int| 0 <= i < d.len() ==> '0' <= #[trigger] d[i] <= '9'
}

/// What follows an optional leading `+`.
pub open spec fn unsigned_digits(s: Seq<char>) -> Seq<char> {
    if s.len() > 0 && s[0] == '+' {
        s.skip(1)
    } else {
        s
    }
}

/// A decimal number as `u32::from_str` reads it: an optional `+`, then
/// digits only, at most `u32::MAX`.
pub open spec fn parse_u32(s: Seq<char>) -> Option<u32> {
    let d = unsigned_digits(s);
    if d.len() == 0 || !all_digits(d) || digits_value(d) > u32::MAX {
        None
    } else {
        Some(digits_value(d) as u32)
    }
}

/// Reads a decimal `u32`.
pub fn parse_u32_exec(s: &Vec<char>) -> (r: Option<u32>)
    ensures
        r == parse_u32(s@),
{
    let start: usize = if s.len() > 0 && s[0] == '+' {
        1
    } else {
        0
    };
    let ghost d = s@.skip(start as int);
    assert(d =~= unsigned_digits(s@));
    if start >= s.len() {
        return None;
    }
    let mut value: u64 = 0;
    let mut i = start;
    while i < s.len()
        invariant
            start <= i <= s.len(),
            start < s.len(),
            d == s@.skip(start as int),
            d == unsigned_digits(s@),
            d.len() == s.len() - start,
            forall|j: int| 0 <= j < i - start ==> '0' <= #[trigger] d[j] <= '9',
            value == digits_value(d.take(i - start)),
            value <= u32::MAX,
        decreases s.len() - i,
    {
        let c = s[i];
        assert(d[i - start] == c);
        if !('0' <= c && c <= '9') {
            assert(!('0' <= d[i - start] <= '9'));
            assert(!all_digits(d));
            return None;
        }
        assert(d.take(i - start + 1).drop_last() =~= d.take(i - start));
        value = value * 10 + (c as u64 - '0' as u64);
        assert(value == digits_value(d.take(i - start + 1)));
        if value > 0xFFFF_FFFF {
            proof {
                if all_digits(d) {
                    crate::platform::linux::lemma_digits_value_mono(d, i - start + 1);
                    assert(digits_value(d) > u32::MAX);
                }
            }
            return None;
        }
        i = i + 1;
    }
    assert(d.take(d.len() as int) =~= d);
    Some(value as u32)
}

/// The disk number at the end of a `\\.\PhysicalDriveN` id.
pub fn disk_number_from_id(id: &str) -> (r: Result<u32, ExecutionError>)
    ensures
        match parse_u32(drive_suffix(id@)) {
            Some(n) => r == Ok::<u32, ExecutionError>(n),
            None => r matches Err(ExecutionError::Failed(_)),
        },
{
    let v = chars_of(id);
    let pat = chars_of("PhysicalDrive");
    proof {
        reveal_strlit("PhysicalDrive");
    }
    let n = v.len();
    let m = pat.len();
    let mut found: Option<usize> = None;
    if n >= m {
        let mut i: usize = n - m + 1;
        while i > 0 && found.is_none()
            invariant
                i <= n - m + 1,
                n == v@.len(),
                m == pat@.len(),
                n >= m,
                v@ == id@,
                pat@ == "PhysicalDrive"@,
                found is None ==> last_occurrence(v@, pat@, (n - m) as int) == last_occurrence(v@, pat@, i - 1),
                found matches Some(k) ==> k + m <= n && last_occurrence(v@, pat@, (n - m) as int) == k,
            decreases (if found is None { i + 1 } else { i as int }),
        {
            let k = i - 1;
            let mut same = true;
            let mut j: usize = 0;
            while j < m
                invariant
                    j <= m,
                    k + m <= n,
                    n == v@.len(),
                    m == pat@.len(),
                    same == (forall|t: int| 0 <= t < j ==> v@[k + t] == pat@[t]),
                decreases m - j,
            {
                if v[k + j] != pat[j] {
                    same = false;
                }
                j = j + 1;
            }
            if same {
                assert(v@.subrange(k as int, k + m) =~= pat@);
                found = Some(k);
            } else {
                proof {
                    if occurs_at(v@, pat@, k as int) {
                        assert forall|t: int| 0 <= t < m implies v@[k + t] == pat@[t] by {
                            assert(v@.subrange(k as int, k + m)[t] == v@[k + t]);
                        }
                    }
                }
                i = i - 1;
            }
        }
    }
    let ghost last = last_occurrence(v@, pat@, v@.len() - pat@.len());
    proof {
        if n < m {
            assert(last == -1);
        }
    }
    let digits = match found {
        Some(k) => {
            assert(last == k);
            let mut d: Vec<char> = Vec::new();
            let mut t = k + m;
            while t < n
                invariant
                    k + m <= t <= n,
                    n == v@.len(),
                    d@ =~= v@.subrange(k + m, t as int),
                decreases n - t,
            {
                d.push(v[t]);
                t = t + 1;
            }
            assert(d@ =~= v@.skip(k + m));
            d
        },
        None => {
            assert(last == -1);
            v
        },
    };
    match parse_u32_exec(&digits) {
        Some(x) => Ok(x),
        None => {
            let mut msg = text("ungültige Datenträger-ID: ");
            msg.append(id);
            Err(ExecutionError::Failed(msg))
        },
    }
}

/// The name `Format-Volume` takes for a file system Windows can create.
pub open spec fn spec_windows_fs_name(fs: FileSystem) -> Option<Seq<char>> {
    match fs {
        FileSystem::Ntfs => Some("NTFS"@),
        FileSystem::Fat32 => Some("FAT32"@),
        FileSystem::ExFat => Some("exFAT"@),
        _ => None,
    }
}

pub fn windows_fs_name(fs: FileSystem) -> (r: Result<&'static str, ExecutionError>)
    ensures
        match spec_windows_fs_name(fs) {
            Some(n) => r matches Ok(s) && s@ == n,
            None => r matches Err(ExecutionError::NotImplemented(_)),
        },
{
    match fs {
        FileSystem::Ntfs => Ok("NTFS"),
        FileSystem::Fat32 => Ok("FAT32"),
        FileSystem::ExFat => Ok("exFAT"),
        _ => Err(
            ExecutionError::NotImplemented(
                text("Windows kann dieses Dateisystem nicht ohne Zusatzsoftware formatieren"),
            ),
        ),
    }
}

fn push_arg(args: &mut Vec<String>, a: &str)
    ensures
        strings_view(final(args)@) == strings_view(old(args)@).push(a@),
{
    args.push(String::from_str(a));
    assert(strings_view(final(args)@) =~= strings_view(old(args)@).push(a@));
}

fn push_number(args: &mut Vec<String>, n: u64)
    ensures
        strings_view(final(args)@) == strings_view(old(args)@).push(decimal(n as nat)),
{
    let mut s = String::new();
    push_decimal(&mut s, n);
    args.push(s);
    assert(strings_view(final(args)@) =~= strings_view(old(args)@).push(decimal(n as nat)));
}

/// The parameters that name a disk and a partition.
pub open spec fn partition_params(disk: u32, number: u32) -> Seq<Seq<char>> {
    seq!["-DiskNumber"@, decimal(disk as nat), "-PartitionNumber"@, decimal(number as nat)]
}

/// A label parameter where a label is given.
pub open spec fn label_params(label: Option<Seq<char>>) -> Seq<Seq<char>> {
    match label {
        Some(l) => seq!["-Label"@, l],
        None => Seq::empty(),
    }
}

/// The parameters of the script that creates a partition.
pub open spec fn create_params(
    disk: u32,
    start: u64,
    size: u64,
    fs: Seq<char>,
    label: Option<Seq<char>>,
    letter: Option<char>,
) -> Seq<Seq<char>> {
    seq!["-DiskNumber"@, decimal(disk as nat), "-OffsetBytes"@, decimal(start as nat), "-SizeBytes"@,
        decimal(size as nat), "-FileSystem"@, fs] + label_params(label) + match letter {
        Some(c) => seq!["-DriveLetter"@, seq![c]],
        None => Seq::empty(),
    }
}

/// The call is this script with these parameters.
pub open spec fn calls(r: Result<ScriptCall, ExecutionError>, script: Script, params: Seq<Seq<char>>) -> bool {
    r matches Ok(c) && c.script == script && strings_view(c.params@) == params
}

/// The call runs `script` on partition `id` of `disk` (as found there),
/// addressed by disk number `n` and its partition number, followed by
/// `tail`.
pub open spec fn partition_call(
    r: Result<ScriptCall, ExecutionError>,
    disk: Disk,
    id: Seq<char>,
    script: Script,
    n: u32,
    tail: Seq<Seq<char>>,
) -> bool {
    exists|k: int|
        0 <= k < disk.layout@.len() && #[trigger] disk.layout@[k] is Partition
            && disk.layout@[k]->Partition_0.id.0@ == id && calls(
            r,
            script,
            partition_params(n, disk.layout@[k]->Partition_0.number) + tail,
        )
}

/// What the Windows executor runs for a request that passed the checks,
/// on the disk with number `n`.
pub open spec fn windows_plan_ok(
    r: Result<ScriptCall, ExecutionError>,
    disk: Disk,
    req: OperationRequest,
    n: u32,
) -> bool {
    match req {
        OperationRequest::CreatePartition { start, size, filesystem, label, drive_letter, .. } => match spec_windows_fs_name(filesystem) {
            Some(f) => calls(r, Script::CreatePartition, create_params(
                n,
                start.0,
                size.0,
                f,
                match label {
                    Some(l) => Some(l@),
                    None => None,
                },
                drive_letter,
            )),
            None => r matches Err(ExecutionError::NotImplemented(_)),
        },
        OperationRequest::DeletePartition { partition } => partition_call(
            r,
            disk,
            partition.0@,
            Script::DeletePartition,
            n,
            Seq::empty(),
        ),
        OperationRequest::FormatPartition { partition, filesystem, label } => match spec_windows_fs_name(filesystem) {
            Some(f) => partition_call(
                r,
                disk,
                partition.0@,
                Script::FormatPartition,
                n,
                seq!["-FileSystem"@, f] + label_params(
                    match label {
                        Some(l) => Some(l@),
                        None => None,
                    },
                ),
            ),
            None => r matches Err(ExecutionError::NotImplemented(_)),
        },
        OperationRequest::SetLabel { partition, label } => partition_call(
            r,
            disk,
            partition.0@,
            Script::SetLabel,
            n,
            seq!["-Label"@, label@],
        ),
        OperationRequest::SetDriveLetter { partition, drive_letter } => partition_call(
            r,
            disk,
            partition.0@,
            Script::SetDriveLetter,
            n,
            seq!["-DriveLetter"@, seq![drive_letter]],
        ),
        OperationRequest::EraseDisk { .. } => r matches Err(ExecutionError::NotImplemented(_)),
    }
}

/// The Windows executor's decisions: it checks the request against the
/// disk as just read, then says which script to run with which
/// parameters.
pub struct WindowsDiskExecutor;

impl WindowsDiskExecutor {
    pub fn plan(&self, disk: &Disk, req: &OperationRequest, confirmation: Confirmation) -> (r: Result<
        ScriptCall,
        ExecutionError,
    >)
        ensures
            spec_precheck(*disk, *req, confirmation) is Err ==> r is Err && r->Err_0 == spec_precheck(
                *disk,
                *req,
                confirmation,
            )->Err_0,
            spec_precheck(*disk, *req, confirmation) is Ok && parse_u32(drive_suffix(disk.id.0@)) is None
                ==> r matches Err(ExecutionError::Failed(_)),
            parse_u32(drive_suffix(disk.id.0@)) is Some && spec_precheck(*disk, *req, confirmation) is Ok
                ==> windows_plan_ok(r, *disk, *req, parse_u32(drive_suffix(disk.id.0@))->0),
    {
        match precheck(disk, req, confirmation) {
            Ok(()) => {},
            Err(e) => return Err(e),
        }
        let n = match disk_number_from_id(disk.id.0.as_str()) {
            Ok(n) => n,
            Err(e) => return Err(e),
        };
        let mut params: Vec<String> = Vec::new();
        match req {
            OperationRequest::CreatePartition { start, size, filesystem, label, drive_letter, .. } => {
                let fs = match windows_fs_name(*filesystem) {
                    Ok(f) => f,
                    Err(e) => return Err(e),
                };
                push_arg(&mut params, "-DiskNumber");
                push_number(&mut params, n as u64);
                push_arg(&mut params, "-OffsetBytes");
                push_number(&mut params, start.0);
                push_arg(&mut params, "-SizeBytes");
                push_number(&mut params, size.0);
                push_arg(&mut params, "-FileSystem");
                push_arg(&mut params, fs);
                let ghost base = strings_view(params@);
                match label {
                    Some(l) => {
                        push_arg(&mut params, "-Label");
                        push_arg(&mut params, l.as_str());
                    },
                    None => {},
                }
                let ghost with_label = strings_view(params@);
                match drive_letter {
                    Some(c) => {
                        push_arg(&mut params, "-DriveLetter");
                        let mut s = String::new();
                        push_char(&mut s, *c);
                        assert(s@ =~= seq![*c]);
                        let ghost before = strings_view(params@);
                        params.push(s);
                        assert(strings_view(params@) =~= before.push(seq![*c]));
                    },
                    None => {},
                }
                assert(strings_view(params@) =~= create_params(
                    n,
                    start.0,
                    size.0,
                    fs@,
                    match label {
                        Some(l) => Some(l@),
                        None => None,
                    },
                    *drive_letter,
                ));
                Ok(ScriptCall { script: Script::CreatePartition, params })
            },
            OperationRequest::DeletePartition { partition } => {
                assert(has_partition(disk.layout@, partition.0@));
                let p = match find_partition(disk, partition) {
                    Ok(p) => p,
                    Err(e) => return Err(ExecutionError::ValidationFailed(e)),
                };
                push_arg(&mut params, "-DiskNumber");
                push_number(&mut params, n as u64);
                push_arg(&mut params, "-PartitionNumber");
                push_number(&mut params, p.number as u64);
                let call = ScriptCall { script: Script::DeletePartition, params };
                proof {
                    let i = choose|i: int|
                        0 <= i < disk.layout@.len() && disk.layout@[i] == Segment::Partition(*p);
                    assert(strings_view(call.params@) =~= partition_params(n, p.number) + Seq::<Seq<char>>::empty());
                    assert(disk.layout@[i] is Partition);
                    assert(partition_call(Ok(call), *disk, partition.0@, Script::DeletePartition, n, Seq::empty()));
                }
                Ok(call)
            },
            OperationRequest::FormatPartition { partition, filesystem, label } => {
                assert(has_partition(disk.layout@, partition.0@));
                let p = match find_partition(disk, partition) {
                    Ok(p) => p,
                    Err(e) => return Err(ExecutionError::ValidationFailed(e)),
                };
                let fs = match windows_fs_name(*filesystem) {
                    Ok(f) => f,
                    Err(e) => return Err(e),
                };
                push_arg(&mut params, "-DiskNumber");
                push_number(&mut params, n as u64);
                push_arg(&mut params, "-PartitionNumber");
                push_number(&mut params, p.number as u64);
                push_arg(&mut params, "-FileSystem");
                push_arg(&mut params, fs);
                match label {
                    Some(l) => {
                        push_arg(&mut params, "-Label");
                        push_arg(&mut params, l.as_str());
                    },
                    None => {},
                }
                let call = ScriptCall { script: Script::FormatPartition, params };
                proof {
                    let i = choose|i: int|
                        0 <= i < disk.layout@.len() && disk.layout@[i] == Segment::Partition(*p);
                    let tail = seq!["-FileSystem"@, fs@] + label_params(
                        match label {
                            Some(l) => Some(l@),
                            None => None,
                        },
                    );
                    assert(strings_view(call.params@) =~= partition_params(n, p.number) + tail);
                    assert(disk.layout@[i] is Partition);
                }
                Ok(call)
            },
            OperationRequest::SetLabel { partition, label } => {
                assert(has_partition(disk.layout@, partition.0@));
                let p = match find_partition(disk, partition) {
                    Ok(p) => p,
                    Err(e) => return Err(ExecutionError::ValidationFailed(e)),
                };
                push_arg(&mut params, "-DiskNumber");
                push_number(&mut params, n as u64);
                push_arg(&mut params, "-PartitionNumber");
                push_number(&mut params, p.number as u64);
                push_arg(&mut params, "-Label");
                push_arg(&mut params, label.as_str());
                let call = ScriptCall { script: Script::SetLabel, params };
                proof {
                    let i = choose|i: int|
                        0 <= i < disk.layout@.len() && disk.layout@[i] == Segment::Partition(*p);
                    assert(strings_view(call.params@) =~= partition_params(n, p.number) + seq!["-Label"@, label@]);
                    assert(disk.layout@[i] is Partition);
                    assert(partition_call(Ok(call), *disk, partition.0@, Script::SetLabel, n, seq!["-Label"@, label@]));
                }
                Ok(call)
            },
            OperationRequest::SetDriveLetter { partition, drive_letter } => {
                assert(has_partition(disk.layout@, partition.0@));
                let p = match find_partition(disk, partition) {
                    Ok(p) => p,
                    Err(e) => return Err(ExecutionError::ValidationFailed(e)),
                };
                push_arg(&mut params, "-DiskNumber");
                push_number(&mut params, n as u64);
                push_arg(&mut params, "-PartitionNumber");
                push_number(&mut params, p.number as u64);
                push_arg(&mut params, "-DriveLetter");
                let mut s = String::new();
                push_char(&mut s, *drive_letter);
                assert(s@ =~= seq![*drive_letter]);
                let ghost before = strings_view(params@);
                params.push(s);
                assert(strings_view(params@) =~= before.push(seq![*drive_letter]));
                let call = ScriptCall { script: Script::SetDriveLetter, params };
                proof {
                    let i = choose|i: int|
                        0 <= i < disk.layout@.len() && disk.layout@[i] == Segment::Partition(*p);
                    assert(strings_view(call.params@) =~= partition_params(n, p.number) + seq!["-DriveLetter"@, seq![*drive_letter]]);
                    assert(disk.layout@[i] is Partition);
                    assert(partition_call(Ok(call), *disk, partition.0@, Script::SetDriveLetter, n, seq!["-DriveLetter"@, seq![*drive_letter]]));
                }
                Ok(call)
            },
            OperationRequest::EraseDisk { .. } => {
                Err(ExecutionError::NotImplemented(text("erasing a whole disk is not supported on Windows")))
            },
        }
    }
}

/// The file system named to `New-Partition` / `Format-Volume` is the one
/// asked for: `exFAT` exactly for exFAT, `FAT32` exactly for FAT32, `NTFS`
/// exactly for NTFS; Windows formats no other file system.
pub proof fn lemma_windows_fs_names(fs: FileSystem)
    ensures
        (spec_windows_fs_name(fs) == Some("exFAT"@)) <==> fs == FileSystem::ExFat,
        (spec_windows_fs_name(fs) == Some("FAT32"@)) <==> fs == FileSystem::Fat32,
        (spec_windows_fs_name(fs) == Some("NTFS"@)) <==> fs == FileSystem::Ntfs,
        spec_windows_fs_name(fs) is None <==> !(fs is ExFat || fs is Fat32 || fs is Ntfs),
{
    reveal_strlit("exFAT");
    reveal_strlit("FAT32");
    reveal_strlit("NTFS");
    assert("exFAT"@[0] != "FAT32"@[0] && "exFAT"@[0] != "NTFS"@[0] && "FAT32"@[0] != "NTFS"@[0]);
}

/// What the Windows executor runs, for every request that passed its
/// checks on disk number `n`: each request runs its own script on that
/// disk (`-DiskNumber n` first); a format names the requested file system
/// after `-FileSystem`, a relabel the new label after `-Label`, a letter
/// change the letter after `-DriveLetter`, and a create its offset, size
/// and file system; erasing a disk and file systems Windows can't create
/// are refused as not implemented.
pub proof fn lemma_windows_plan_laws(r: Result<ScriptCall, ExecutionError>, disk: Disk, req: OperationRequest, n: u32)
    requires
        windows_plan_ok(r, disk, req, n),
    ensures
        match req {
            OperationRequest::CreatePartition { start, size, filesystem, .. } => match spec_windows_fs_name(
                filesystem,
            ) {
                Some(f) => r matches Ok(c) && c.script == Script::CreatePartition && strings_view(c.params@).len()
                    >= 8 && strings_view(c.params@).take(8) == seq![
                    "-DiskNumber"@,
                    decimal(n as nat),
                    "-OffsetBytes"@,
                    decimal(start.0 as nat),
                    "-SizeBytes"@,
                    decimal(size.0 as nat),
                    "-FileSystem"@,
                    f,
                ],
                None => r matches Err(ExecutionError::NotImplemented(_)),
            },
            OperationRequest::DeletePartition { .. } => r matches Ok(c) && c.script == Script::DeletePartition
                && strings_view(c.params@).len() == 4 && strings_view(c.params@).take(2) == seq![
                "-DiskNumber"@,
                decimal(n as nat),
            ],
            OperationRequest::FormatPartition { filesystem, .. } => match spec_windows_fs_name(filesystem) {
                Some(f) => r matches Ok(c) && c.script == Script::FormatPartition && strings_view(c.params@).len()
                    >= 6 && strings_view(c.params@).take(2) == seq!["-DiskNumber"@, decimal(n as nat)]
                    && strings_view(c.params@).subrange(4, 6) == seq!["-FileSystem"@, f],
                None => r matches Err(ExecutionError::NotImplemented(_)),
            },
            OperationRequest::SetLabel { label, .. } => r matches Ok(c) && c.script == Script::SetLabel
                && strings_view(c.params@) =~= strings_view(c.params@).take(4) + seq!["-Label"@, label@]
                && strings_view(c.params@).len() == 6 && strings_view(c.params@).take(2) == seq![
                "-DiskNumber"@,
                decimal(n as nat),
            ],
            OperationRequest::SetDriveLetter { drive_letter, .. } => r matches Ok(c) && c.script
                == Script::SetDriveLetter && strings_view(c.params@).len() == 6 && strings_view(c.params@).subrange(
                4,
                6,
            ) == seq!["-DriveLetter"@, seq![drive_letter]] && strings_view(c.params@).take(2) == seq![
                "-DiskNumber"@,
                decimal(n as nat),
            ],
            OperationRequest::EraseDisk { .. } => r matches Err(ExecutionError::NotImplemented(_)),
        },
{
    match req {
        OperationRequest::CreatePartition { start, size, filesystem, label, drive_letter, .. } => {
            if let Some(f) = spec_windows_fs_name(filesystem) {
                let c = r->Ok_0;
                let p = strings_view(c.params@);
                assert(p.take(8) =~= seq![
                    "-DiskNumber"@,
                    decimal(n as nat),
                    "-OffsetBytes"@,
                    decimal(start.0 as nat),
                    "-SizeBytes"@,
                    decimal(size.0 as nat),
                    "-FileSystem"@,
                    f,
                ]);
            }
        },
        OperationRequest::EraseDisk { .. } => {},
        _ => {
            let id = match req {
                OperationRequest::DeletePartition { partition } => partition.0@,
                OperationRequest::FormatPartition { partition, .. } => partition.0@,
                OperationRequest::SetLabel { partition, .. } => partition.0@,
                OperationRequest::SetDriveLetter { partition, .. } => partition.0@,
                _ => Seq::empty(),
            };
            if r is Ok {
                let k = choose|k: int|
                    0 <= k < disk.layout@.len() && #[trigger] disk.layout@[k] is Partition
                        && disk.layout@[k]->Partition_0.id.0@ == id && calls(
                        r,
                        r->Ok_0.script,
                        partition_params(n, disk.layout@[k]->Partition_0.number) + strings_view(
                            r->Ok_0.params@,
                        ).skip(4),
                    );
                let p = strings_view(r->Ok_0.params@);
                assert(p.take(2) =~= seq!["-DiskNumber"@, decimal(n as nat)]);
                assert(p.take(4) + p.skip(4) =~= p);
            }
        },
    }
}

} // verus!
