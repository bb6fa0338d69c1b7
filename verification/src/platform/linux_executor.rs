//! What the Linux executor runs for an operation: `parted`, `mkfs.*`,
//! label tools and `wipefs`, each with a fixed argument list in which a
//! label or size is one argument of its own.
use vstd::prelude::*;
use crate::models::{decimal, partitions_of, push_decimal, ByteSize, Disk, FileSystem, Segment};
use crate::operations::{
    find_partition, has_partition, precheck, spec_precheck, Confirmation, ExecutionError,
    OperationRequest,
};
use crate::text::strings_view;
use super::{call_view, text, tool, Step, ToolCall};

verus! {

/// Whether std counts a character as numeric (`char::is_numeric`: the
/// Unicode categories Nd, Nl and No).
pub uninterp spec fn numeric_char(c: char) -> bool;

/// Calls `char::is_numeric`; the contract only names its result.
#[verifier::external_body]
fn is_numeric(c: char) -> (r: bool)
    ensures
        r == numeric_char(c),
{
    c.is_numeric()
}

/// The step runs exactly this call.
pub open spec fn runs(step: Step, call: (Seq<char>, Seq<Seq<char>>)) -> bool {
    step matches Step::Run(c) && call_view(c) == call
}

/// The step re-reads the partition table of this disk.
pub open spec fn rescans(step: Step, path: Seq<char>) -> bool {
    step matches Step::Rescan(p) && p@ == path
}

/// The result is this call.
pub open spec fn is_call(r: Result<ToolCall, ExecutionError>, call: (Seq<char>, Seq<Seq<char>>)) -> bool {
    r matches Ok(t) && call_view(t) == call
}

/// Number of trailing `/`.
pub open spec fn trailing_slashes(s: Seq<char>) -> nat
    decreases s.len(),
{
    if s.len() > 0 && s.last() == '/' {
        1 + trailing_slashes(s.drop_last())
    } else {
        0
    }
}

pub proof fn lemma_trailing_slashes(s: Seq<char>)
    ensures
        trailing_slashes(s) <= s.len(),
        forall|j: int| s.len() - trailing_slashes(s) <= j < s.len() ==> #[trigger] s[j] == '/',
        trailing_slashes(s) < s.len() ==> s[s.len() - trailing_slashes(s) - 1] != '/',
    decreases s.len(),
{
    if s.len() > 0 && s.last() == '/' {
        lemma_trailing_slashes(s.drop_last());
        assert forall|j: int| s.len() - trailing_slashes(s) <= j < s.len() implies #[trigger] s[j] == '/' by {
            if j < s.len() - 1 {
                assert(s[j] == s.drop_last()[j]);
            }
        }
    }
}

/// A partition's device node: the disk's path without trailing `/`,
/// then `p` where that ends in a digit (`nvme0n1p2`), then the number.
pub open spec fn spec_partition_device_path(disk_path: Seq<char>, number: nat) -> Seq<char> {
    let base = disk_path.take(disk_path.len() - trailing_slashes(disk_path));
    if base.len() > 0 && numeric_char(base.last()) {
        base + seq!['p'] + decimal(number)
    } else {
        base + decimal(number)
    }
}

pub fn partition_device_path(disk_path: &str, number: u32) -> (r: String)
    ensures
        r@ == spec_partition_device_path(disk_path@, number as nat),
{
    let n = disk_path.unicode_len();
    let mut end = n;
    proof {
        lemma_trailing_slashes(disk_path@);
    }
    while end > 0 && disk_path.get_char(end - 1) == '/'
        invariant
            end <= n,
            n == disk_path@.len(),
            forall|j: int| end <= j < n ==> #[trigger] disk_path@[j] == '/',
            trailing_slashes(disk_path@) <= n,
            forall|j: int| n - trailing_slashes(disk_path@) <= j < n ==> #[trigger] disk_path@[j] == '/',
            trailing_slashes(disk_path@) < n ==> disk_path@[n - trailing_slashes(disk_path@) - 1] != '/',
            n - end <= trailing_slashes(disk_path@),
        decreases end,
    {
        end = end - 1;
    }
    assert(n - end == trailing_slashes(disk_path@));
    let mut s = String::from_str(disk_path.substring_char(0, end));
    if end > 0 && is_numeric(disk_path.get_char(end - 1)) {
        crate::models::push_char(&mut s, 'p');
    }
    push_decimal(&mut s, number as u64);
    s
}

/// `[flag, label]` where the label isn't empty, else nothing.
pub open spec fn opt_flag(flag: Seq<char>, label: Seq<char>) -> Seq<Seq<char>> {
    if label.len() == 0 {
        Seq::empty()
    } else {
        seq![flag, label]
    }
}

/// The tool and arguments that create file system `fs` on a partition,
/// if Linux can create it.
pub open spec fn format_call_spec(path: Seq<char>, fs: FileSystem, label: Seq<char>) -> Option<
    (Seq<char>, Seq<Seq<char>>),
> {
    match fs {
        FileSystem::Ext2 => Some(("mkfs.ext2"@, seq!["-F"@, "-L"@, label, path])),
        FileSystem::Ext3 => Some(("mkfs.ext3"@, seq!["-F"@, "-L"@, label, path])),
        FileSystem::Ext4 => Some(("mkfs.ext4"@, seq!["-F"@, "-L"@, label, path])),
        FileSystem::Fat32 => Some(("mkfs.vfat"@, seq!["-F"@, "32"@] + opt_flag("-n"@, label) + seq![path])),
        FileSystem::ExFat => Some(("mkfs.exfat"@, opt_flag("-n"@, label) + seq![path])),
        FileSystem::Ntfs => Some(("mkfs.ntfs"@, seq!["-F"@, "-Q"@] + opt_flag("-L"@, label) + seq![path])),
        FileSystem::Btrfs => Some(("mkfs.btrfs"@, seq!["-f"@] + opt_flag("-L"@, label) + seq![path])),
        FileSystem::Xfs => Some(("mkfs.xfs"@, seq!["-f"@] + opt_flag("-L"@, label) + seq![path])),
        FileSystem::LinuxSwap => Some(("mkswap"@, opt_flag("-L"@, label) + seq![path])),
        _ => None,
    }
}

fn push_arg(args: &mut Vec<String>, a: &str)
    ensures
        strings_view(final(args)@) == strings_view(old(args)@).push(a@),
{
    args.push(String::from_str(a));
    assert(strings_view(final(args)@) =~= strings_view(old(args)@).push(a@));
}

fn push_opt_flag(args: &mut Vec<String>, flag: &str, label: &str)
    ensures
        strings_view(final(args)@) == strings_view(old(args)@) + opt_flag(flag@, label@),
{
    if label.unicode_len() > 0 {
        push_arg(args, flag);
        push_arg(args, label);
        assert(strings_view(final(args)@) =~= strings_view(old(args)@) + opt_flag(flag@, label@));
    } else {
        assert(strings_view(old(args)@) + opt_flag(flag@, label@) =~= strings_view(old(args)@));
    }
}

/// The call that creates file system `filesystem` on the partition at
/// `partition_path`, labeled `label` where one is given.
pub fn format_call(partition_path: &str, filesystem: FileSystem, label: Option<&str>) -> (r: Result<
    ToolCall,
    ExecutionError,
>)
    ensures
        ({
            let l = match label {
                Some(l) => l@,
                None => Seq::empty(),
            };
            match format_call_spec(partition_path@, filesystem, l) {
                Some(c) => is_call(r, c),
                None => r matches Err(ExecutionError::NotImplemented(_)),
            }
        }),
{
    let label = match label {
        Some(l) => l,
        None => "",
    };
    proof {
        reveal_strlit("");
        assert(""@ =~= Seq::<char>::empty());
    }
    let mut args: Vec<String> = Vec::new();
    let program = match filesystem {
        FileSystem::Ext2 | FileSystem::Ext3 | FileSystem::Ext4 => {
            push_arg(&mut args, "-F");
            push_arg(&mut args, "-L");
            push_arg(&mut args, label);
            push_arg(&mut args, partition_path);
            assert(strings_view(args@) =~= seq!["-F"@, "-L"@, label@, partition_path@]);
            match filesystem {
                FileSystem::Ext2 => "mkfs.ext2",
                FileSystem::Ext3 => "mkfs.ext3",
                _ => "mkfs.ext4",
            }
        },
        FileSystem::Fat32 => {
            push_arg(&mut args, "-F");
            push_arg(&mut args, "32");
            push_opt_flag(&mut args, "-n", label);
            push_arg(&mut args, partition_path);
            assert(strings_view(args@) =~= seq!["-F"@, "32"@] + opt_flag("-n"@, label@) + seq![partition_path@]);
            "mkfs.vfat"
        },
        FileSystem::ExFat => {
            push_opt_flag(&mut args, "-n", label);
            push_arg(&mut args, partition_path);
            assert(strings_view(args@) =~= opt_flag("-n"@, label@) + seq![partition_path@]);
            "mkfs.exfat"
        },
        FileSystem::Ntfs => {
            push_arg(&mut args, "-F");
            push_arg(&mut args, "-Q");
            push_opt_flag(&mut args, "-L", label);
            push_arg(&mut args, partition_path);
            assert(strings_view(args@) =~= seq!["-F"@, "-Q"@] + opt_flag("-L"@, label@) + seq![partition_path@]);
            "mkfs.ntfs"
        },
        FileSystem::Btrfs | FileSystem::Xfs => {
            push_arg(&mut args, "-f");
            push_opt_flag(&mut args, "-L", label);
            push_arg(&mut args, partition_path);
            assert(strings_view(args@) =~= seq!["-f"@] + opt_flag("-L"@, label@) + seq![partition_path@]);
            match filesystem {
                FileSystem::Btrfs => "mkfs.btrfs",
                _ => "mkfs.xfs",
            }
        },
        FileSystem::LinuxSwap => {
            push_opt_flag(&mut args, "-L", label);
            push_arg(&mut args, partition_path);
            assert(strings_view(args@) =~= opt_flag("-L"@, label@) + seq![partition_path@]);
            "mkswap"
        },
        FileSystem::Apfs | FileSystem::HfsPlus => {
            return Err(
                ExecutionError::NotImplemented(
                    text("Linux cannot create APFS or Mac OS Extended file systems"),
                ),
            );
        },
        FileSystem::Unformatted | FileSystem::Unknown => {
            return Err(
                ExecutionError::NotImplemented(text("formatting to this file system is not supported")),
            );
        },
    };
    let ghost a = strings_view(args@);
    let c = tool(program, args);
    assert(call_view(c).1 =~= a);
    Ok(c)
}

/// The tool and arguments that relabel a partition with file system `fs`.
pub open spec fn label_call_spec(path: Seq<char>, fs: FileSystem, label: Seq<char>) -> Option<
    (Seq<char>, Seq<Seq<char>>),
> {
    match fs {
        FileSystem::Ext2 | FileSystem::Ext3 | FileSystem::Ext4 => Some(("e2label"@, seq![path, label])),
        FileSystem::Fat32 => Some(("fatlabel"@, seq![path, label])),
        FileSystem::ExFat => Some(("exfatlabel"@, seq![path, label])),
        FileSystem::Ntfs => Some(("ntfslabel"@, seq![path, label])),
        FileSystem::Btrfs => Some(("btrfs"@, seq!["filesystem"@, "label"@, path, label])),
        FileSystem::Xfs => Some(("xfs_admin"@, seq!["-L"@, label, path])),
        _ => None,
    }
}

/// The call that sets the label of the partition at `partition_path`.
pub fn label_call(partition_path: &str, filesystem: FileSystem, label: &str) -> (r: Result<
    ToolCall,
    ExecutionError,
>)
    ensures
        match label_call_spec(partition_path@, filesystem, label@) {
            Some(c) => is_call(r, c),
            None => r matches Err(ExecutionError::NotImplemented(_)),
        },
{
    let mut args: Vec<String> = Vec::new();
    let program = match filesystem {
        FileSystem::Ext2 | FileSystem::Ext3 | FileSystem::Ext4 | FileSystem::Fat32
        | FileSystem::ExFat | FileSystem::Ntfs => {
            push_arg(&mut args, partition_path);
            push_arg(&mut args, label);
            assert(strings_view(args@) =~= seq![partition_path@, label@]);
            match filesystem {
                FileSystem::Fat32 => "fatlabel",
                FileSystem::ExFat => "exfatlabel",
                FileSystem::Ntfs => "ntfslabel",
                _ => "e2label",
            }
        },
        FileSystem::Btrfs => {
            push_arg(&mut args, "filesystem");
            push_arg(&mut args, "label");
            push_arg(&mut args, partition_path);
            push_arg(&mut args, label);
            assert(strings_view(args@) =~= seq!["filesystem"@, "label"@, partition_path@, label@]);
            "btrfs"
        },
        FileSystem::Xfs => {
            push_arg(&mut args, "-L");
            push_arg(&mut args, label);
            push_arg(&mut args, partition_path);
            assert(strings_view(args@) =~= seq!["-L"@, label@, partition_path@]);
            "xfs_admin"
        },
        _ => {
            return Err(
                ExecutionError::NotImplemented(
                    text("changing the label is not supported for this file system"),
                ),
            );
        },
    };
    let ghost a = strings_view(args@);
    let c = tool(program, args);
    assert(call_view(c).1 =~= a);
    Ok(c)
}

/// The MBR partition type `parted` gives a partition for file system
/// `fs`.
pub open spec fn spec_mbr_partition_type(fs: FileSystem) -> Option<Seq<char>> {
    match fs {
        FileSystem::Fat32 => Some("fat32"@),
        FileSystem::ExFat | FileSystem::Ntfs => Some("ntfs"@),
        FileSystem::Ext2 | FileSystem::Ext3 | FileSystem::Ext4 => Some("ext4"@),
        FileSystem::Btrfs => Some("btrfs"@),
        FileSystem::Xfs => Some("xfs"@),
        FileSystem::LinuxSwap => Some("linux-swap"@),
        _ => None,
    }
}

/// `parted`'s name for the MBR partition type of `fs`: Windows only
/// mounts partitions whose type it knows.
pub fn mbr_partition_type(fs: FileSystem) -> (r: Result<&'static str, ExecutionError>)
    ensures
        match spec_mbr_partition_type(fs) {
            Some(t) => r matches Ok(s) && s@ == t,
            None => r matches Err(ExecutionError::NotImplemented(_)),
        },
{
    match fs {
        FileSystem::Fat32 => Ok("fat32"),
        FileSystem::ExFat | FileSystem::Ntfs => Ok("ntfs"),
        FileSystem::Ext2 | FileSystem::Ext3 | FileSystem::Ext4 => Ok("ext4"),
        FileSystem::Btrfs => Ok("btrfs"),
        FileSystem::Xfs => Ok("xfs"),
        FileSystem::LinuxSwap => Ok("linux-swap"),
        _ => Err(ExecutionError::NotImplemented(text("Linux cannot create this file system"))),
    }
}

/// A byte position as `parted` takes it: the number and `B`.
pub open spec fn bytes_arg(n: nat) -> Seq<char> {
    decimal(n) + seq!['B']
}

fn bytes_arg_exec(n: u64) -> (r: String)
    ensures
        r@ == bytes_arg(n as nat),
{
    let mut s = String::new();
    push_decimal(&mut s, n);
    crate::models::push_char(&mut s, 'B');
    s
}

/// The `parted` call that creates a partition over `[start, start+size)`
/// named after the label (or `partition` without one).
pub open spec fn create_call_spec(disk_path: Seq<char>, start: u64, size: u64, label: Option<Seq<char>>) -> (
    Seq<char>,
    Seq<Seq<char>>,
) {
    let name = match label {
        Some(l) => if l.len() > 0 { l } else { "partition"@ },
        None => "partition"@,
    };
    ("parted"@, seq!["--script"@, disk_path, "unit"@, "B"@, "mkpart"@, name, bytes_arg(start as nat),
        bytes_arg((start + size - 1) as nat)])
}

/// The `parted` call that creates a partition; an error where its last
/// byte can't be computed.
pub fn create_call(disk_path: &str, start: ByteSize, size: ByteSize, label: Option<&str>) -> (r: Result<
    ToolCall,
    ExecutionError,
>)
    ensures
        (1 <= start.0 + size.0 <= u64::MAX) ==> is_call(r, create_call_spec(
            disk_path@,
            start.0,
            size.0,
            match label {
                Some(l) => Some(l@),
                None => None,
            },
        )),
        !(1 <= start.0 + size.0 <= u64::MAX) ==> r matches Err(ExecutionError::Failed(_)),
{
    let end = match start.checked_add(size) {
        Some(e) => match e.checked_sub(ByteSize(1)) {
            Some(e) => e,
            None => return Err(ExecutionError::Failed(text("size calculation overflowed"))),
        },
        None => return Err(ExecutionError::Failed(text("size calculation overflowed"))),
    };
    let name = match label {
        Some(l) => if l.unicode_len() > 0 {
            l
        } else {
            "partition"
        },
        None => "partition",
    };
    let mut args: Vec<String> = Vec::new();
    push_arg(&mut args, "--script");
    push_arg(&mut args, disk_path);
    push_arg(&mut args, "unit");
    push_arg(&mut args, "B");
    push_arg(&mut args, "mkpart");
    push_arg(&mut args, name);
    let ghost before = strings_view(args@);
    args.push(bytes_arg_exec(start.0));
    args.push(bytes_arg_exec(end.0));
    assert(strings_view(args@) =~= before.push(bytes_arg(start.0 as nat)).push(bytes_arg(end.0 as nat)));
    assert(strings_view(args@) =~= seq!["--script"@, disk_path@, "unit"@, "B"@, "mkpart"@, name@,
        bytes_arg(start.0 as nat), bytes_arg(end.0 as nat)]);
    let ghost a = strings_view(args@);
    let c = tool("parted", args);
    assert(call_view(c).1 =~= a);
    Ok(c)
}

/// The `parted` call that removes partition `number`.
pub fn delete_call(disk_path: &str, number: u32) -> (r: ToolCall)
    ensures
        call_view(r) == ("parted"@, seq!["--script"@, disk_path@, "rm"@, decimal(number as nat)]),
{
    let mut args: Vec<String> = Vec::new();
    push_arg(&mut args, "--script");
    push_arg(&mut args, disk_path);
    push_arg(&mut args, "rm");
    let ghost before = strings_view(args@);
    let mut n = String::new();
    push_decimal(&mut n, number as u64);
    args.push(n);
    assert(strings_view(args@) =~= before.push(decimal(number as nat)));
    assert(strings_view(args@) =~= seq!["--script"@, disk_path@, "rm"@, decimal(number as nat)]);
    let ghost a = strings_view(args@);
    let c = tool("parted", args);
    assert(call_view(c).1 =~= a);
    c
}

/// Every mount point of every partition, in layout order.
pub open spec fn mount_points_of(parts: Seq<crate::models::Partition>) -> Seq<Seq<char>>
    decreases parts.len(),
{
    if parts.len() == 0 {
        Seq::empty()
    } else {
        mount_points_of(parts.drop_last()) + strings_view(parts.last().mountpoints@)
    }
}

/// The steps that unmount everything mounted from the disk, so nothing
/// writes to it while it is overwritten: `umount` for each mount point.
pub fn prepare_raw_write(disk: &Disk) -> (r: Vec<Step>)
    ensures
        r.len() == mount_points_of(partitions_of(disk.layout@)).len(),
        forall|i: int| 0 <= i < r.len() ==> runs(#[trigger] r@[i], (
            "umount"@,
            seq![mount_points_of(partitions_of(disk.layout@))[i]],
        )),
{
    let parts = disk.partitions();
    let ghost ps = partitions_of(disk.layout@);
    assert(parts@.map_values(|p: &crate::models::Partition| *p) =~= ps);
    let mut out: Vec<Step> = Vec::new();
    let mut i: usize = 0;
    while i < parts.len()
        invariant
            i <= parts.len(),
            parts@.map_values(|p: &crate::models::Partition| *p) == ps,
            out.len() == mount_points_of(ps.take(i as int)).len(),
            forall|k: int| 0 <= k < out.len() ==> runs(#[trigger] out@[k], ("umount"@, seq![mount_points_of(ps.take(i as int))[k]])),
        decreases parts.len() - i,
    {
        let p = parts[i];
        assert(ps[i as int] == *p);
        assert(ps.take(i + 1).drop_last() =~= ps.take(i as int));
        let ghost prev = mount_points_of(ps.take(i as int));
        let mut j: usize = 0;
        while j < p.mountpoints.len()
            invariant
                j <= p.mountpoints.len(),
                out.len() == prev.len() + j,
                forall|k: int| 0 <= k < out.len() ==> runs(#[trigger] out@[k], ("umount"@, seq![(prev + strings_view(p.mountpoints@))[k]])),
            decreases p.mountpoints.len() - j,
        {
            let mut args: Vec<String> = Vec::new();
            args.push(p.mountpoints[j].clone());
            assert(strings_view(args@) =~= seq![p.mountpoints@[j as int]@]);
            let ghost a = strings_view(args@);
            let c = tool("umount", args);
            assert(call_view(c).1 =~= a);
            out.push(Step::Run(c));
            proof {
                assert forall|k: int| 0 <= k < out.len() implies runs(#[trigger] out@[k], ("umount"@, seq![(prev + strings_view(p.mountpoints@))[k]])) by {
                    if k == out.len() - 1 {
                        assert((prev + strings_view(p.mountpoints@))[k] == p.mountpoints@[j as int]@);
                    }
                }
            }
            j = j + 1;
        }
        assert(mount_points_of(ps.take(i + 1)) =~= prev + strings_view(p.mountpoints@));
        i = i + 1;
    }
    assert(ps.take(parts.len() as int) =~= ps);
    out
}

/// The call that drops the kernel's cached pages of the disk, so a
/// verification pass reads what is on the device.
pub fn drop_read_cache(disk: &Disk) -> (r: Step)
    ensures
        runs(r, ("blockdev"@, seq!["--flushbufs"@, disk.id.0@])),
{
    let mut args: Vec<String> = Vec::new();
    push_arg(&mut args, "--flushbufs");
    push_arg(&mut args, disk.id.0.as_str());
    assert(strings_view(args@) =~= seq!["--flushbufs"@, disk.id.0@]);
    let ghost a = strings_view(args@);
    let c = tool("blockdev", args);
    assert(call_view(c).1 =~= a);
    Step::Run(c)
}

/// After a whole-disk image was written: have the kernel read the
/// image's partition table.
pub fn finish_raw_write(disk: &Disk) -> (r: Step)
    ensures
        r matches Step::Rescan(p) && p@ == disk.id.0@,
{
    Step::Rescan(disk.id.0.clone())
}

/// `steps` erase the disk: unmount every mount point, wipe every
/// signature, write an MBR with one partition of the type for `fs` from
/// 1 MiB to the end, re-read the table and format that partition.
pub open spec fn erases(steps: Seq<Step>, disk: Disk, fs: FileSystem, label: Seq<char>) -> bool {
    let mounts = mount_points_of(partitions_of(disk.layout@));
    let n = mounts.len() as int;
    let part = spec_partition_device_path(disk.id.0@, 1);
    &&& spec_mbr_partition_type(fs) is Some
    &&& steps.len() == n + 4
    &&& forall|i: int| 0 <= i < n ==> runs(#[trigger] steps[i], ("umount"@, seq![mounts[i]]))
    &&& runs(steps[n], ("wipefs"@, seq!["--all"@, "--force"@, disk.id.0@]))
    &&& runs(steps[n + 1], ("parted"@, seq!["--script"@, disk.id.0@,
        "mklabel"@, "msdos"@, "mkpart"@, "primary"@, spec_mbr_partition_type(fs)->0, "1MiB"@, "100%"@]))
    &&& rescans(steps[n + 2], disk.id.0@)
    &&& format_call_spec(part, fs, label) is Some
    &&& runs(steps[n + 3], format_call_spec(part, fs, label)->0)
}

/// The steps that erase a disk: unmount it, wipe every signature, write
/// an MBR with one partition from 1 MiB to the end, re-read the table and
/// format that partition. Checked before anything is wiped.
pub fn erase_steps(disk: &Disk, fs: FileSystem, label: Option<&str>) -> (r: Result<Vec<Step>, ExecutionError>)
    ensures
        spec_mbr_partition_type(fs) is None ==> r matches Err(ExecutionError::NotImplemented(_)),
        spec_mbr_partition_type(fs) is Some ==> (r matches Ok(steps) && erases(
            steps@,
            *disk,
            fs,
            match label {
                Some(l) => l@,
                None => Seq::empty(),
            },
        )),
{
    let part_type = match mbr_partition_type(fs) {
        Ok(t) => t,
        Err(e) => return Err(e),
    };
    let path = disk.id.0.as_str();
    let mut steps = prepare_raw_write(disk);
    let ghost n = steps.len();
    let ghost pre = steps@;
    let mut wipe: Vec<String> = Vec::new();
    push_arg(&mut wipe, "--all");
    push_arg(&mut wipe, "--force");
    push_arg(&mut wipe, path);
    assert(strings_view(wipe@) =~= seq!["--all"@, "--force"@, path@]);
    let ghost a1 = strings_view(wipe@);
    let c1 = tool("wipefs", wipe);
    assert(call_view(c1).1 =~= a1);
    steps.push(Step::Run(c1));
    let mut parted: Vec<String> = Vec::new();
    push_arg(&mut parted, "--script");
    push_arg(&mut parted, path);
    push_arg(&mut parted, "mklabel");
    push_arg(&mut parted, "msdos");
    push_arg(&mut parted, "mkpart");
    push_arg(&mut parted, "primary");
    push_arg(&mut parted, part_type);
    push_arg(&mut parted, "1MiB");
    push_arg(&mut parted, "100%");
    assert(strings_view(parted@) =~= seq!["--script"@, path@, "mklabel"@, "msdos"@, "mkpart"@, "primary"@,
        part_type@, "1MiB"@, "100%"@]);
    let ghost a2 = strings_view(parted@);
    let c2 = tool("parted", parted);
    assert(call_view(c2).1 =~= a2);
    steps.push(Step::Run(c2));
    steps.push(Step::Rescan(disk.id.0.clone()));
    let part = partition_device_path(path, 1);
    let fmt = match format_call(part.as_str(), fs, label) {
        Ok(c) => c,
        Err(e) => return Err(e),
    };
    steps.push(Step::Run(fmt));
    assert forall|i: int| 0 <= i < n implies #[trigger] steps@[i] == pre[i] by {}
    Ok(steps)
}

/// `seg` is the partition with id `id`, and `step` removes it from disk
/// `path`.
pub open spec fn deletes_partition(seg: Segment, id: Seq<char>, step: Step, path: Seq<char>) -> bool {
    seg matches Segment::Partition(p) && p.id.0@ == id && runs(step, ("parted"@, seq![
        "--script"@,
        path,
        "rm"@,
        decimal(p.number as nat),
    ]))
}

/// The steps are exactly `call`, or the request was refused as not
/// implemented where there is no call.
pub open spec fn single_step(r: Result<Vec<Step>, ExecutionError>, call: Option<(Seq<char>, Seq<Seq<char>>)>) -> bool {
    match call {
        Some(c) => r matches Ok(steps) && steps.len() == 1 && runs(steps@[0], c),
        None => r matches Err(ExecutionError::NotImplemented(_)),
    }
}

/// The label text of an optional label, empty without one.
pub open spec fn label_text(label: Option<String>) -> Seq<char> {
    match label {
        Some(l) => l@,
        None => Seq::empty(),
    }
}

/// `seg` is partition `id`, and the steps format it (as a device node
/// of disk `path`) with `fs`.
pub open spec fn formats_partition(
    seg: Segment,
    id: Seq<char>,
    r: Result<Vec<Step>, ExecutionError>,
    path: Seq<char>,
    fs: FileSystem,
    label: Seq<char>,
) -> bool {
    seg matches Segment::Partition(p) && p.id.0@ == id && single_step(
        r,
        format_call_spec(spec_partition_device_path(path, p.number as nat), fs, label),
    )
}

/// `seg` is partition `id`, and the steps relabel it with the tool for
/// the file system it holds.
pub open spec fn labels_partition(
    seg: Segment,
    id: Seq<char>,
    r: Result<Vec<Step>, ExecutionError>,
    path: Seq<char>,
    label: Seq<char>,
) -> bool {
    seg matches Segment::Partition(p) && p.id.0@ == id && single_step(
        r,
        label_call_spec(spec_partition_device_path(path, p.number as nat), p.fs, label),
    )
}

/// The Linux executor's decisions: it checks the request against the
/// disk as just read, then says what to run.
pub struct LinuxDiskExecutor;

impl LinuxDiskExecutor {
    /// The steps that carry out `req` on `disk` (read fresh from the
    /// system): after the request passed validation and, where it is
    /// risky, was confirmed.
    pub fn plan(&self, disk: &Disk, req: &OperationRequest, confirmation: Confirmation) -> (r: Result<
        Vec<Step>,
        ExecutionError,
    >)
        ensures
            spec_precheck(*disk, *req, confirmation) is Err ==> r is Err && r->Err_0 == spec_precheck(
                *disk,
                *req,
                confirmation,
            )->Err_0,
            spec_precheck(*disk, *req, confirmation) is Ok ==> match *req {
                OperationRequest::CreatePartition { start, size, label, .. } => (1 <= start.0 + size.0 <= u64::MAX)
                    ==> (r matches Ok(steps) && steps.len() == 2 && runs(steps@[0], create_call_spec(
                    disk.id.0@,
                    start.0,
                    size.0,
                    match label {
                        Some(l) => Some(l@),
                        None => None,
                    },
                )) && rescans(steps@[1], disk.id.0@)),
                OperationRequest::DeletePartition { partition } => r matches Ok(steps) && steps.len() == 2
                    && rescans(steps@[1], disk.id.0@) && exists|k: int|
                    0 <= k < disk.layout@.len() && deletes_partition(#[trigger] disk.layout@[k], partition.0@, steps@[0], disk.id.0@),
                OperationRequest::FormatPartition { partition, filesystem, label } => exists|k: int|
                    0 <= k < disk.layout@.len() && formats_partition(
                        #[trigger] disk.layout@[k],
                        partition.0@,
                        r,
                        disk.id.0@,
                        filesystem,
                        label_text(label),
                    ),
                OperationRequest::SetLabel { partition, label } => exists|k: int|
                    0 <= k < disk.layout@.len() && labels_partition(
                        #[trigger] disk.layout@[k],
                        partition.0@,
                        r,
                        disk.id.0@,
                        label@,
                    ),
                OperationRequest::SetDriveLetter { .. } => r matches Err(ExecutionError::NotImplemented(_)),
                OperationRequest::EraseDisk { filesystem, label, .. } => match spec_mbr_partition_type(filesystem) {
                    Some(_) => r matches Ok(steps) && erases(steps@, *disk, filesystem, label_text(label)),
                    None => r matches Err(ExecutionError::NotImplemented(_)),
                },
            },
    {
        match precheck(disk, req, confirmation) {
            Ok(()) => {},
            Err(e) => return Err(e),
        }
        match req {
            OperationRequest::CreatePartition { start, size, label, .. } => {
                let l = match label {
                    Some(l) => Some(l.as_str()),
                    None => None,
                };
                let c = match create_call(disk.id.0.as_str(), *start, *size, l) {
                    Ok(c) => c,
                    Err(e) => return Err(e),
                };
                let mut steps: Vec<Step> = Vec::new();
                steps.push(Step::Run(c));
                steps.push(Step::Rescan(disk.id.0.clone()));
                Ok(steps)
            },
            OperationRequest::DeletePartition { partition } => {
                let p = match find_partition(disk, partition) {
                    Ok(p) => p,
                    Err(e) => return Err(ExecutionError::ValidationFailed(e)),
                };
                let mut steps: Vec<Step> = Vec::new();
                steps.push(Step::Run(delete_call(disk.id.0.as_str(), p.number)));
                steps.push(Step::Rescan(disk.id.0.clone()));
                Ok(steps)
            },
            OperationRequest::FormatPartition { partition, filesystem, label } => {
                let p = match find_partition(disk, partition) {
                    Ok(p) => p,
                    Err(e) => return Err(ExecutionError::ValidationFailed(e)),
                };
                let dev = partition_device_path(disk.id.0.as_str(), p.number);
                let l = match label {
                    Some(l) => Some(l.as_str()),
                    None => None,
                };
                let c = match format_call(dev.as_str(), *filesystem, l) {
                    Ok(c) => c,
                    Err(e) => return Err(e),
                };
                let mut steps: Vec<Step> = Vec::new();
                steps.push(Step::Run(c));
                Ok(steps)
            },
            OperationRequest::SetLabel { partition, label } => {
                let p = match find_partition(disk, partition) {
                    Ok(p) => p,
                    Err(e) => return Err(ExecutionError::ValidationFailed(e)),
                };
                let dev = partition_device_path(disk.id.0.as_str(), p.number);
                let c = match label_call(dev.as_str(), p.fs, label.as_str()) {
                    Ok(c) => c,
                    Err(e) => return Err(e),
                };
                let mut steps: Vec<Step> = Vec::new();
                steps.push(Step::Run(c));
                Ok(steps)
            },
            OperationRequest::SetDriveLetter { .. } => {
                Err(ExecutionError::NotImplemented(text("drive letters do not exist on Linux")))
            },
            OperationRequest::EraseDisk { filesystem, label, .. } => {
                let l = match label {
                    Some(l) => Some(l.as_str()),
                    None => None,
                };
                erase_steps(disk, *filesystem, l)
            },
        }
    }
}

/// What formatting a partition runs on Linux, for every partition path
/// and label: Linux formats every file system but Apple's and the unknown
/// or unformatted; the tool is the one for the file system asked for
/// (`mkfs.vfat` with FAT size 32 for FAT32, `mkswap` for swap); the
/// partition is the last argument; and a label that is given is among the
/// arguments.
pub proof fn lemma_format_call_laws(path: Seq<char>, fs: FileSystem, label: Seq<char>)
    ensures
        format_call_spec(path, fs, label) is Some <==> !(fs is Unknown || fs is Unformatted || fs is Apfs
            || fs is HfsPlus),
        format_call_spec(path, fs, label) matches Some(c) ==> c.1.len() > 0 && c.1.last() == path,
        format_call_spec(path, fs, label) matches Some(c) ==> (label.len() > 0 ==> c.1.contains(label)),
        fs == FileSystem::Fat32 ==> (format_call_spec(path, fs, label) matches Some(c) && c.0 == "mkfs.vfat"@
            && c.1.len() >= 3 && c.1[0] == "-F"@ && c.1[1] == "32"@),
        fs == FileSystem::ExFat ==> (format_call_spec(path, fs, label) matches Some(c) && c.0 == "mkfs.exfat"@),
        fs == FileSystem::Ntfs ==> (format_call_spec(path, fs, label) matches Some(c) && c.0 == "mkfs.ntfs"@),
        fs == FileSystem::Ext2 ==> (format_call_spec(path, fs, label) matches Some(c) && c.0 == "mkfs.ext2"@),
        fs == FileSystem::Ext3 ==> (format_call_spec(path, fs, label) matches Some(c) && c.0 == "mkfs.ext3"@),
        fs == FileSystem::Ext4 ==> (format_call_spec(path, fs, label) matches Some(c) && c.0 == "mkfs.ext4"@),
        fs == FileSystem::Btrfs ==> (format_call_spec(path, fs, label) matches Some(c) && c.0 == "mkfs.btrfs"@),
        fs == FileSystem::Xfs ==> (format_call_spec(path, fs, label) matches Some(c) && c.0 == "mkfs.xfs"@),
        fs == FileSystem::LinuxSwap ==> (format_call_spec(path, fs, label) matches Some(c) && c.0 == "mkswap"@),
{
    if let Some(c) = format_call_spec(path, fs, label) {
        if label.len() > 0 {
            match fs {
                FileSystem::Ext2 | FileSystem::Ext3 | FileSystem::Ext4 => assert(c.1[2] == label),
                FileSystem::Fat32 | FileSystem::Ntfs => assert(c.1[3] == label),
                FileSystem::Btrfs | FileSystem::Xfs => assert(c.1[2] == label),
                _ => assert(c.1[1] == label),
            }
        }
    }
}

/// Two different file systems are never made by the same tool: for any
/// partitions and labels, formatting as `fs1` and as `fs2 != fs1` runs
/// different programs.
pub proof fn lemma_format_calls_differ(
    p1: Seq<char>,
    fs1: FileSystem,
    l1: Seq<char>,
    p2: Seq<char>,
    fs2: FileSystem,
    l2: Seq<char>,
)
    requires
        fs1 != fs2,
        format_call_spec(p1, fs1, l1) is Some,
        format_call_spec(p2, fs2, l2) is Some,
    ensures
        format_call_spec(p1, fs1, l1).unwrap().0 != format_call_spec(p2, fs2, l2).unwrap().0,
{
    reveal_strlit("mkfs.ext2");
    reveal_strlit("mkfs.ext3");
    reveal_strlit("mkfs.ext4");
    reveal_strlit("mkfs.vfat");
    reveal_strlit("mkfs.exfat");
    reveal_strlit("mkfs.ntfs");
    reveal_strlit("mkfs.btrfs");
    reveal_strlit("mkfs.xfs");
    reveal_strlit("mkswap");
    let a = format_call_spec(p1, fs1, l1).unwrap().0;
    let b = format_call_spec(p2, fs2, l2).unwrap().0;
    if a == b {
        assert(a.len() == b.len());
        assert(forall|i: int| 0 <= i < a.len() ==> a[i] == b[i]);
        assert(a[5] == b[5]);
        assert(a.len() > 6 ==> a[6] == b[6]);
        assert(a.len() > 8 ==> a[8] == b[8]);
    }
}

/// The MBR partition type `parted` is given matches the file system:
/// FAT32 is `fat32`, exFAT and NTFS `ntfs`, ext2/3/4 `ext4`, Btrfs, XFS and
/// swap their own; other file systems get none.
pub proof fn lemma_mbr_partition_types(fs: FileSystem)
    ensures
        fs == FileSystem::Fat32 ==> spec_mbr_partition_type(fs) == Some("fat32"@),
        fs == FileSystem::ExFat || fs == FileSystem::Ntfs ==> spec_mbr_partition_type(fs) == Some("ntfs"@),
        fs is Ext2 || fs is Ext3 || fs is Ext4 ==> spec_mbr_partition_type(fs) == Some("ext4"@),
        fs == FileSystem::Btrfs ==> spec_mbr_partition_type(fs) == Some("btrfs"@),
        fs == FileSystem::Xfs ==> spec_mbr_partition_type(fs) == Some("xfs"@),
        fs == FileSystem::LinuxSwap ==> spec_mbr_partition_type(fs) == Some("linux-swap"@),
        !((fs == FileSystem::Fat32) || (fs == FileSystem::ExFat || fs == FileSystem::Ntfs) || (fs is Ext2 || fs is Ext3 || fs is Ext4) || (fs == FileSystem::Btrfs) || (fs == FileSystem::Xfs) || (fs == FileSystem::LinuxSwap)) ==> spec_mbr_partition_type(fs) is None,
{
    reveal_strlit("btrfs");
    reveal_strlit("ext4");
    reveal_strlit("fat32");
    reveal_strlit("linux-swap");
    reveal_strlit("ntfs");
    reveal_strlit("xfs");
    assert("btrfs"@.len() != "ext4"@.len());
    assert("btrfs"@[0] != "fat32"@[0]);
    assert("btrfs"@.len() != "linux-swap"@.len());
    assert("btrfs"@.len() != "ntfs"@.len());
    assert("btrfs"@.len() != "xfs"@.len());
    assert("ext4"@.len() != "fat32"@.len());
    assert("ext4"@.len() != "linux-swap"@.len());
    assert("ext4"@[0] != "ntfs"@[0]);
    assert("ext4"@.len() != "xfs"@.len());
    assert("fat32"@.len() != "linux-swap"@.len());
    assert("fat32"@.len() != "ntfs"@.len());
    assert("fat32"@.len() != "xfs"@.len());
    assert("linux-swap"@.len() != "ntfs"@.len());
    assert("linux-swap"@.len() != "xfs"@.len());
    assert("ntfs"@.len() != "xfs"@.len());
}

/// What relabelling runs on Linux, for every partition and label: the
/// labelling tool of the partition's file system, given the partition and
/// the new label; swap and file systems Linux can't label get none.
pub proof fn lemma_label_call_laws(path: Seq<char>, fs: FileSystem, label: Seq<char>)
    ensures
        label_call_spec(path, fs, label) is Some <==> (fs is Ext2 || fs is Ext3 || fs is Ext4 || fs is Fat32
            || fs is ExFat || fs is Ntfs || fs is Btrfs || fs is Xfs),
        label_call_spec(path, fs, label) matches Some(c) ==> c.1.contains(path) && c.1.contains(label),
        (fs is Ext2 || fs is Ext3 || fs is Ext4) ==> (label_call_spec(path, fs, label) matches Some(c) && c.0
            == "e2label"@),
        fs == FileSystem::Fat32 ==> (label_call_spec(path, fs, label) matches Some(c) && c.0 == "fatlabel"@),
        fs == FileSystem::ExFat ==> (label_call_spec(path, fs, label) matches Some(c) && c.0 == "exfatlabel"@),
        fs == FileSystem::Ntfs ==> (label_call_spec(path, fs, label) matches Some(c) && c.0 == "ntfslabel"@),
        fs == FileSystem::Btrfs ==> (label_call_spec(path, fs, label) matches Some(c) && c.0 == "btrfs"@),
        fs == FileSystem::Xfs ==> (label_call_spec(path, fs, label) matches Some(c) && c.0 == "xfs_admin"@),
{
    if let Some(c) = label_call_spec(path, fs, label) {
        match fs {
            FileSystem::Btrfs => {
                assert(c.1[2] == path && c.1[3] == label);
            },
            FileSystem::Xfs => {
                assert(c.1[2] == path && c.1[1] == label);
            },
            _ => {
                assert(c.1[0] == path && c.1[1] == label);
            },
        }
    }
}

/// Creating a partition on Linux runs `parted` in script mode on the disk,
/// in bytes, from the first byte of the range to its last (inclusive), so
/// the partition covers exactly `size` bytes; it is named after the label,
/// or `partition` without one.
pub proof fn lemma_create_call_laws(disk_path: Seq<char>, start: u64, size: u64, label: Option<Seq<char>>)
    requires
        1 <= start + size <= u64::MAX,
        size >= 1,
    ensures
        ({
            let c = create_call_spec(disk_path, start, size, label);
            &&& c.0 == "parted"@
            &&& c.1.len() == 8
            &&& c.1[0] == "--script"@ && c.1[1] == disk_path && c.1[2] == "unit"@ && c.1[3] == "B"@ && c.1[4]
                == "mkpart"@
            &&& c.1[5] == (match label {
                Some(l) => if l.len() > 0 { l } else { "partition"@ },
                None => "partition"@,
            })
            &&& c.1[6] == decimal(start as nat) + seq!['B']
            &&& c.1[7] == decimal((start + size - 1) as nat) + seq!['B']
        }),
{
}

/// Erasing a disk on Linux, for every disk, file system and label: every
/// mount point of the disk is unmounted first; then every signature on the
/// disk is wiped; then a fresh MBR (`msdos`) gets one primary partition
/// from 1 MiB to the end of the disk; the kernel re-reads the table; and
/// last that first partition is formatted with the file system asked for.
pub proof fn lemma_erase_order(steps: Seq<Step>, disk: Disk, fs: FileSystem, label: Seq<char>)
    requires
        erases(steps, disk, fs, label),
    ensures
        ({
            let n = steps.len() - 4;
            let part = spec_partition_device_path(disk.id.0@, 1);
            &&& forall|i: int| 0 <= i < n ==> ((#[trigger] steps[i]) matches Step::Run(c) && call_view(c).0
                == "umount"@)
            &&& steps[n] matches Step::Run(c) && call_view(c).0 == "wipefs"@ && call_view(c).1.contains(disk.id.0@)
            &&& steps[n + 1] matches Step::Run(c) && call_view(c).0 == "parted"@ && call_view(c).1.subrange(1, 4)
                == seq![disk.id.0@, "mklabel"@, "msdos"@] && call_view(c).1.subrange(7, 9) == seq![
                "1MiB"@,
                "100%"@,
            ]
            &&& steps[n + 2] is Rescan
            &&& steps[n + 3] matches Step::Run(c) && call_view(c) == format_call_spec(part, fs, label)->0
            &&& fs == FileSystem::Fat32 ==> (steps[n + 3] matches Step::Run(c) && call_view(c).0 == "mkfs.vfat"@)
        }),
{
    let n = steps.len() - 4;
    let mounts = mount_points_of(partitions_of(disk.layout@));
    assert forall|i: int| 0 <= i < n implies ((#[trigger] steps[i]) matches Step::Run(c) && call_view(c).0
        == "umount"@) by {
        assert(runs(steps[i], ("umount"@, seq![mounts[i]])));
    }
    if let Step::Run(c) = steps[n] {
        assert(call_view(c).1[2] == disk.id.0@);
    }
    if let Step::Run(c) = steps[n + 1] {
        assert(call_view(c).1.subrange(1, 4) =~= seq![disk.id.0@, "mklabel"@, "msdos"@]);
        assert(call_view(c).1.subrange(7, 9) =~= seq!["1MiB"@, "100%"@]);
    }
    lemma_format_call_laws(spec_partition_device_path(disk.id.0@, 1), fs, label);
}

} // verus!
