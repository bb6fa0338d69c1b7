//! File-copy mode, what Rufus calls "ISO mode": instead of copying the
//! image byte for byte, the drive gets an MBR with one FAT32 partition
//! holding the image's files. It boots on UEFI PCs through the image's own
//! EFI boot loader (`EFI/BOOT/BOOTX64.EFI`).
//!
//! Linux live systems find their files by the volume label. FAT32 labels
//! hold only 11 upper-case characters, so when the image's label doesn't
//! fit, the boot configuration files are patched to the shortened label.
use vstd::prelude::*;
use super::fat32::{geometry_error_text, geometry_matches, planned_geometry, too_small_for_fat32, Geometry, MAX_FILE_SIZE};
use super::fat_entries::{byte32, byte32_exec, fat_stamp, FatDateTime};
use super::fat_plan::{
    any_oversized, cluster_size, dir_holds, dirs_in, dirs_in_list, entries_match, lemma_planned_geometry_ok, no_room_message,
    node_ok, too_large_message, tree_need, FatNode, Plan, MAX_DIR_CHILDREN,
};
use super::fat_names::{label_text, volume_label_bytes, volume_label_text};
use super::iso9660::{Extent, IsoDate, IsoNode, IsoTree, MAX_NODES};
use super::FlashError;
use crate::models::{
    ascii_lower, ascii_lower_exec, ascii_lowercase, decimal, digit, digit_char, push_char, push_decimal,
    str_eq, to_ascii_lowercase, trim_str, trimmed, Disk, MIB,
};
use crate::platform::text;
use crate::text::{ends_with, starts_with};

verus! {

/// The partition starts 1 MiB in, like every modern partitioning tool.
pub const PARTITION_START: u64 = 1048576;

/// The sector size the volume of file-copy mode is laid out for: 4 KiB on
/// drives with 4 KiB logical sectors, otherwise 512 bytes.
pub fn copy_sector_size(disk: &Disk) -> (r: u32)
    ensures
        r == (if disk.logical_sector_size == 4096 { 4096u32 } else { 512u32 }),
{
    if disk.logical_sector_size == 4096 {
        4096
    } else {
        512
    }
}

/// Config files larger than this aren't searched for the label.
pub const MAX_PATCHED_FILE: u64 = 1048576;

/// Whether an image can be written in file-copy mode, for the UI.
#[derive(Debug, Clone, PartialEq, Eq)]
pub struct CopyModeInfo {
    pub supported: bool,
    /// Why not, if not.
    pub reason: Option<String>,
    /// The FAT32 volume label the drive would get.
    pub label: Option<String>,
}

/// Where a file's contents come from.
#[derive(Debug)]
pub enum Source {
    Image(Vec<Extent>),
    /// A boot config file with the volume label patched.
    Patched(Vec<u8>),
}

/// An image's files, ready to be laid out on FAT32.
#[derive(Debug)]
pub struct Prepared {
    pub tree: Vec<FatNode>,
    pub sources: Vec<Source>,
    pub label: String,
    /// The paths of the patched boot config files.
    pub patched: Vec<String>,
}

/// The FAT timestamp of an ISO date.
pub fn fat_date(d: IsoDate) -> (r: FatDateTime)
    ensures
        (r.date as int, r.time as int) == fat_stamp(
            d.year as int,
            d.month as int,
            d.day as int,
            d.hour as int,
            d.minute as int,
            d.second as int,
        ),
{
    FatDateTime::new(d.year, d.month, d.day, d.hour, d.minute, d.second)
}

/// `str::eq_ignore_ascii_case`.
pub fn eq_ignore_ascii_case(a: &str, b: &str) -> (r: bool)
    ensures
        r == (ascii_lowercase(a@) == ascii_lowercase(b@)),
{
    let n = a.unicode_len();
    if n != b.unicode_len() {
        assert(ascii_lowercase(a@).len() != ascii_lowercase(b@).len());
        return false;
    }
    let mut i: usize = 0;
    while i < n
        invariant
            n == a@.len(),
            n == b@.len(),
            i <= n,
            forall|j: int| 0 <= j < i ==> ascii_lower(a@[j]) == ascii_lower(b@[j]),
        decreases n - i,
    {
        if ascii_lower_exec(a.get_char(i)) != ascii_lower_exec(b.get_char(i)) {
            assert(ascii_lowercase(a@)[i as int] != ascii_lowercase(b@)[i as int]);
            return false;
        }
        i = i + 1;
    }
    assert(ascii_lowercase(a@) =~= ascii_lowercase(b@));
    true
}

/// The children of a directory node (none for a file).
pub open spec fn node_children(n: IsoNode) -> Seq<IsoNode> {
    match n {
        IsoNode::Dir { children, .. } => children@,
        IsoNode::File { .. } => Seq::empty(),
    }
}

/// `n` is a directory called `name`, ignoring ASCII case.
pub open spec fn dir_named(n: IsoNode, name: Seq<char>) -> bool {
    n is Dir && ascii_lowercase(n.spec_name()) == ascii_lowercase(name)
}

/// The index of the first directory called `name` at or after `i`, or -1.
pub open spec fn first_dir_from(nodes: Seq<IsoNode>, name: Seq<char>, i: int) -> int
    decreases nodes.len() - i,
{
    if i < 0 || i >= nodes.len() {
        -1
    } else if dir_named(nodes[i], name) {
        i
    } else {
        first_dir_from(nodes, name, i + 1)
    }
}

/// A file called `boot*.efi`, ignoring ASCII case.
pub open spec fn is_uefi_loader(n: IsoNode) -> bool {
    let lower = ascii_lowercase(n.spec_name());
    &&& n is File
    &&& lower.len() >= 4 && lower.take(4) == "boot"@
    &&& lower.len() >= 4 && lower.skip(lower.len() - 4) == ".efi"@
}

/// The tree has a UEFI boot loader: a file `boot*.efi` in the first
/// directory `boot` of the first directory `efi` (ignoring case).
pub open spec fn spec_has_uefi_loader(children: Seq<IsoNode>) -> bool {
    let e = first_dir_from(children, "efi"@, 0);
    let efi = node_children(children[e]);
    let b = first_dir_from(efi, "boot"@, 0);
    let boot = node_children(efi[b]);
    e >= 0 && b >= 0 && exists|i: int| 0 <= i < boot.len() && is_uefi_loader(#[trigger] boot[i])
}

/// The first directory called `name` among `nodes`.
fn find_dir<'a>(nodes: &'a Vec<IsoNode>, name: &str) -> (r: Option<&'a Vec<IsoNode>>)
    ensures
        match r {
            Some(c) => first_dir_from(nodes@, name@, 0) >= 0 && c@ == node_children(
                nodes@[first_dir_from(nodes@, name@, 0)],
            ),
            None => first_dir_from(nodes@, name@, 0) == -1,
        },
{
    let mut i: usize = 0;
    while i < nodes.len()
        invariant
            i <= nodes.len(),
            first_dir_from(nodes@, name@, 0) == first_dir_from(nodes@, name@, i as int),
        decreases nodes.len() - i,
    {
        match &nodes[i] {
            IsoNode::Dir { name: n, children, .. } => {
                if eq_ignore_ascii_case(n.as_str(), name) {
                    return Some(children);
                }
            },
            IsoNode::File { .. } => {},
        }
        i = i + 1;
    }
    None
}

/// Whether the tree contains a UEFI boot loader, `EFI/BOOT/BOOT*.EFI`.
pub fn has_uefi_loader(children: &Vec<IsoNode>) -> (r: bool)
    ensures
        r == spec_has_uefi_loader(children@),
{
    proof {
        reveal_strlit("efi");
        reveal_strlit("boot");
        reveal_strlit(".efi");
    }
    let efi = match find_dir(children, "efi") {
        Some(c) => c,
        None => return false,
    };
    let boot = match find_dir(efi, "boot") {
        Some(c) => c,
        None => return false,
    };
    let ghost e = first_dir_from(children@, "efi"@, 0);
    let ghost b = first_dir_from(efi@, "boot"@, 0);
    let mut i: usize = 0;
    while i < boot.len()
        invariant
            i <= boot.len(),
            e == first_dir_from(children@, "efi"@, 0),
            b == first_dir_from(efi@, "boot"@, 0),
            e >= 0,
            b >= 0,
            efi@ == node_children(children@[e]),
            boot@ == node_children(efi@[b]),
            forall|j: int| 0 <= j < i ==> !is_uefi_loader(#[trigger] boot@[j]),
        decreases boot.len() - i,
    {
        proof {
            reveal_strlit("boot");
            reveal_strlit(".efi");
        }
        let n = &boot[i];
        let lower = to_ascii_lowercase(n.name());
        let is_file = match n {
            IsoNode::File { .. } => true,
            IsoNode::Dir { .. } => false,
        };
        if is_file && starts_with(lower.as_str(), "boot") && ends_with(lower.as_str(), ".efi") {
            assert(*n == boot@[i as int]);
            assert(lower@ == ascii_lowercase(boot@[i as int].spec_name()));
            assert("boot"@.len() == 4 && ".efi"@.len() == 4);
            assert(is_uefi_loader(boot@[i as int]));
            return true;
        }
        assert(*n == boot@[i as int]);
        assert(lower@ == ascii_lowercase(boot@[i as int].spec_name()));
        assert("boot"@.len() == 4 && ".efi"@.len() == 4);
        i = i + 1;
    }
    false
}

/// Of two candidates, the larger; the later one on a tie.
pub open spec fn later_max(a: Option<(Seq<char>, u64)>, b: Option<(Seq<char>, u64)>) -> Option<
    (Seq<char>, u64),
> {
    match (a, b) {
        (None, _) => b,
        (_, None) => a,
        (Some(x), Some(y)) => if y.1 >= x.1 {
            b
        } else {
            a
        },
    }
}

/// The largest file under a node (the last of equally large ones).
pub open spec fn largest_of(n: IsoNode) -> Option<(Seq<char>, u64)>
    decreases n,
{
    match n {
        IsoNode::File { name, size, .. } => Some((name@, size)),
        IsoNode::Dir { children, .. } => largest_in(children@),
    }
}

/// The largest file among the nodes and everything under them (the last
/// of equally large ones).
pub open spec fn largest_in(nodes: Seq<IsoNode>) -> Option<(Seq<char>, u64)>
    decreases nodes,
{
    if nodes.len() == 0 {
        None
    } else {
        later_max(largest_in(nodes.subrange(0, nodes.len() - 1)), largest_of(nodes[nodes.len() - 1]))
    }
}

proof fn lemma_largest_step(nodes: Seq<IsoNode>, i: int)
    requires
        0 <= i < nodes.len(),
    ensures
        largest_in(nodes.take(i + 1)) == later_max(largest_in(nodes.take(i)), largest_of(nodes[i])),
{
    assert(nodes.take(i + 1).subrange(0, i) =~= nodes.take(i));
}

/// The largest file in the tree, by size; the last one on a tie.
pub fn largest_file(nodes: &Vec<IsoNode>) -> (r: Option<(String, u64)>)
    ensures
        match (r, largest_in(nodes@)) {
            (Some(x), Some(y)) => x.0@ == y.0 && x.1 == y.1,
            (None, None) => true,
            _ => false,
        },
    decreases nodes,
{
    let mut best: Option<(String, u64)> = None;
    let mut i: usize = 0;
    while i < nodes.len()
        invariant
            i <= nodes.len(),
            match (best, largest_in(nodes@.take(i as int))) {
                (Some(x), Some(y)) => x.0@ == y.0 && x.1 == y.1,
                (None, None) => true,
                _ => false,
            },
        decreases nodes.len() - i,
    {
        proof {
            lemma_largest_step(nodes@, i as int);
        }
        let cand: Option<(String, u64)> = match &nodes[i] {
            IsoNode::File { name, size, .. } => Some((name.clone(), *size)),
            IsoNode::Dir { children, .. } => largest_file(children),
        };
        match cand {
            Some(c) => {
                let take = match &best {
                    None => true,
                    Some(b) => c.1 >= b.1,
                };
                if take {
                    best = Some(c);
                }
            },
            None => {},
        }
        i = i + 1;
    }
    assert(nodes@.take(nodes.len() as int) =~= nodes@);
    best
}

/// Why a file copy of an image can't be made.
#[derive(Debug, Clone, PartialEq, Eq)]
pub enum TreeRejection {
    /// No UEFI boot loader, and a UDF file system: a Windows installer.
    WindowsInstaller,
    /// No UEFI boot loader: the copy wouldn't boot.
    NoUefiLoader,
    /// A file larger than FAT32 can hold.
    FileTooLarge { name: String, size: u64 },
}

/// The tree has a file too large for FAT32 (the largest one is).
pub open spec fn has_oversized_file(children: Seq<IsoNode>) -> bool {
    match largest_in(children) {
        Some(l) => l.1 > MAX_FILE_SIZE,
        None => false,
    }
}

/// Checks that a file copy of `tree` can boot and fit on FAT32.
pub fn check_tree(tree: &IsoTree) -> (r: Result<(), TreeRejection>)
    ensures
        r is Ok <==> spec_has_uefi_loader(tree.children@) && !has_oversized_file(tree.children@),
        r matches Err(TreeRejection::WindowsInstaller) <==> !spec_has_uefi_loader(tree.children@)
            && tree.has_udf,
        r matches Err(TreeRejection::NoUefiLoader) <==> !spec_has_uefi_loader(tree.children@)
            && !tree.has_udf,
        r matches Err(TreeRejection::FileTooLarge { name, size }) ==> spec_has_uefi_loader(
            tree.children@,
        ) && has_oversized_file(tree.children@) && largest_in(tree.children@) == Some((name@, size)),
{
    if !has_uefi_loader(&tree.children) {
        return Err(
            if tree.has_udf {
                TreeRejection::WindowsInstaller
            } else {
                TreeRejection::NoUefiLoader
            },
        );
    }
    match largest_file(&tree.children) {
        Some((name, size)) => {
            if size > MAX_FILE_SIZE {
                return Err(TreeRejection::FileTooLarge { name, size });
            }
        },
        None => {},
    }
    Ok(())
}

/// The message for a file too large for FAT32.
pub open spec fn too_large_text(name: Seq<char>, size_text: Seq<char>) -> Seq<char> {
    name + " is "@ + size_text
        + ", more than the 4 GB a FAT32 file can hold — write the image as a raw image instead"@
}

/// The message shown for a rejected tree; `size_text` is the size of the
/// too large file as the UI writes it.
pub open spec fn spec_rejection_text(r: TreeRejection, size_text: Seq<char>) -> Seq<char> {
    match r {
        TreeRejection::WindowsInstaller => "Windows installer images can't be copied file by file yet — use Microsoft's Media Creation Tool for them"@,
        TreeRejection::NoUefiLoader => "the image has no UEFI boot loader among its files, so a copy wouldn't boot — write it as a raw image instead"@,
        TreeRejection::FileTooLarge { name, .. } => too_large_text(name@, size_text),
    }
}

pub fn rejection_text(r: &TreeRejection, size_text: &str) -> (s: String)
    ensures
        s@ == spec_rejection_text(*r, size_text@),
{
    match r {
        TreeRejection::WindowsInstaller => text(
            "Windows installer images can't be copied file by file yet — use Microsoft's Media Creation Tool for them",
        ),
        TreeRejection::NoUefiLoader => text(
            "the image has no UEFI boot loader among its files, so a copy wouldn't boot — write it as a raw image instead",
        ),
        TreeRejection::FileTooLarge { name, .. } => {
            let mut m = name.clone();
            m.append(" is ");
            m.append(size_text);
            m.append(", more than the 4 GB a FAT32 file can hold — write the image as a raw image instead");
            m
        },
    }
}

/// A name ending in `.cfg` or `.conf`, ignoring ASCII case.
pub open spec fn spec_is_boot_config(name: Seq<char>) -> bool {
    let lower = ascii_lowercase(name);
    (lower.len() >= 4 && lower.skip(lower.len() - 4) == ".cfg"@) || (lower.len() >= 5 && lower.skip(
        lower.len() - 5,
    ) == ".conf"@)
}

pub fn is_boot_config(name: &str) -> (r: bool)
    ensures
        r == spec_is_boot_config(name@),
{
    proof {
        reveal_strlit(".cfg");
        reveal_strlit(".conf");
    }
    let lower = to_ascii_lowercase(name);
    ends_with(lower.as_str(), ".cfg") || ends_with(lower.as_str(), ".conf")
}

/// Every space written as `\x20`, as GRUB configs write it.
pub open spec fn escape_spaces(s: Seq<char>) -> Seq<char>
    decreases s.len(),
{
    if s.len() == 0 {
        s
    } else {
        escape_spaces(s.drop_last()) + if s.last() == ' ' {
            "\\x20"@
        } else {
            seq![s.last()]
        }
    }
}

fn escape_spaces_exec(s: &str) -> (r: String)
    ensures
        r@ == escape_spaces(s@),
{
    let n = s.unicode_len();
    let mut out = String::new();
    let mut i: usize = 0;
    while i < n
        invariant
            n == s@.len(),
            i <= n,
            out@ == escape_spaces(s@.take(i as int)),
        decreases n - i,
    {
        proof {
            reveal_strlit("\\x20");
        }
        let c = s.get_char(i);
        assert(s@.take(i + 1).drop_last() =~= s@.take(i as int));
        if c == ' ' {
            out.append("\\x20");
        } else {
            crate::models::push_char(&mut out, c);
        }
        assert(out@ =~= escape_spaces(s@.take(i + 1)));
        i = i + 1;
    }
    assert(s@.take(n as int) =~= s@);
    out
}

/// `from` occurs in `text` at `i`.
pub open spec fn bytes_at(text: Seq<u8>, from: Seq<u8>, i: int) -> bool {
    0 <= i && i + from.len() <= text.len() && text.subrange(i, i + from.len()) == from
}

/// Every occurrence of `from` replaced by `to`, scanning from the left.
pub open spec fn replace_all(text: Seq<u8>, from: Seq<u8>, to: Seq<u8>) -> Seq<u8>
    recommends
        from.len() > 0,
    decreases text.len(),
{
    if text.len() == 0 || from.len() == 0 {
        text
    } else if bytes_at(text, from, 0) {
        to + replace_all(text.skip(from.len() as int), from, to)
    } else {
        seq![text[0]] + replace_all(text.skip(1), from, to)
    }
}

/// `from` occurs somewhere in `text`.
pub open spec fn occurs(text: Seq<u8>, from: Seq<u8>) -> bool {
    exists|i: int| bytes_at(text, from, i)
}

proof fn lemma_occurs_step(text: Seq<u8>, from: Seq<u8>, k: int)
    requires
        0 <= k <= text.len(),
        from.len() > 0,
    ensures
        occurs(text.skip(k), from) ==> occurs(text, from),
{
    if occurs(text.skip(k), from) {
        let i = choose|i: int| bytes_at(text.skip(k), from, i);
        assert(text.subrange(i + k, i + k + from.len()) =~= text.skip(k).subrange(i, i + from.len()));
        assert(bytes_at(text, from, i + k));
    }
}

proof fn lemma_no_occurrence_step(text: Seq<u8>, from: Seq<u8>)
    requires
        text.len() > 0,
        from.len() > 0,
        !bytes_at(text, from, 0),
        !occurs(text.skip(1), from),
    ensures
        !occurs(text, from),
{
    if occurs(text, from) {
        let i = choose|i: int| bytes_at(text, from, i);
        assert(i >= 1);
        assert(text.skip(1).subrange(i - 1, i - 1 + from.len()) =~= text.subrange(i, i + from.len()));
        assert(bytes_at(text.skip(1), from, i - 1));
    }
}

/// One pass of `replace_label`: `text` with `from` replaced by `to`, and
/// whether anything was replaced.
fn replace_pass(text: &Vec<u8>, from: &[u8], to: &[u8]) -> (r: (Vec<u8>, bool))
    requires
        from@.len() > 0,
    ensures
        r.0@ == replace_all(text@, from@, to@),
        r.1 == occurs(text@, from@),
{
    let mut next: Vec<u8> = Vec::new();
    let mut changed = false;
    let mut i: usize = 0;
    assert(text@.skip(0) =~= text@);
    assert(next@ + text@ =~= text@);
    while i < text.len()
        invariant
            i <= text.len(),
            from@.len() > 0,
            next@ + replace_all(text@.skip(i as int), from@, to@) == replace_all(text@, from@, to@),
            changed ==> occurs(text@, from@),
            !changed ==> (occurs(text@, from@) <==> occurs(text@.skip(i as int), from@)),
        decreases text.len() - i,
    {
        let ghost rest = text@.skip(i as int);
        let mut hit = from.len() <= text.len() - i;
        let mut k: usize = 0;
        while hit && k < from.len()
            invariant
                k <= from.len(),
                hit ==> i + from.len() <= text.len(),
                hit ==> forall|j: int| 0 <= j < k ==> text@[i + j] == from@[j],
                !hit ==> !bytes_at(rest, from@, 0),
                rest == text@.skip(i as int),
                i < text.len(),
            decreases from.len() - k + (if hit { 1int } else { 0int }),
        {
            if text[i + k] != from[k] {
                hit = false;
                assert(rest.subrange(0, from@.len() as int)[k as int] != from@[k as int]);
            } else {
                k = k + 1;
            }
        }
        if hit {
            assert(rest.subrange(0, from@.len() as int) =~= from@);
            assert(bytes_at(rest, from@, 0));
        } else {
            if from.len() > text.len() - i {
                assert(!bytes_at(rest, from@, 0));
            }
        }
        if hit {
            let mut t: usize = 0;
            let ghost before = next@;
            while t < to.len()
                invariant
                    t <= to.len(),
                    next@ == before + to@.take(t as int),
                decreases to.len() - t,
            {
                next.push(to[t]);
                t = t + 1;
                assert(next@ =~= before + to@.take(t as int));
            }
            assert(to@.take(to.len() as int) =~= to@);
            assert(rest.skip(from@.len() as int) =~= text@.skip(i + from.len()));
            proof {
                lemma_occurs_step(text@, from@, i as int);
            }
            changed = true;
            i = i + from.len();
        } else {
            let ghost before = next@;
            next.push(text[i]);
            assert(rest.skip(1) =~= text@.skip(i + 1));
            assert(next@ + replace_all(text@.skip(i + 1), from@, to@) =~= before + replace_all(rest, from@, to@));
            proof {
                if !changed {
                    lemma_occurs_step(rest, from@, 1);
                    if !occurs(rest.skip(1), from@) {
                        lemma_no_occurrence_step(rest, from@);
                    }
                }
            }
            i = i + 1;
        }
    }
    assert(text@.skip(text.len() as int) =~= Seq::<u8>::empty());
    assert(next@ =~= replace_all(text@, from@, to@));
    (next, changed)
}

/// The UTF-8 bytes of a text.
pub open spec fn utf8(s: Seq<char>) -> Seq<u8> {
    vstd::utf8::encode_utf8(s)
}

/// `replace_label`'s result: `old` replaced by `new` first in its
/// `\x20`-escaped form, then as it is; `None` if neither occurs.
pub open spec fn spec_replace_label(text: Seq<u8>, old: Seq<char>, new: Seq<char>) -> Option<Seq<u8>> {
    let from1 = utf8(escape_spaces(old));
    let to1 = utf8(escape_spaces(new));
    let from2 = utf8(old);
    let to2 = utf8(new);
    let t1 = if from1.len() > 0 { replace_all(text, from1, to1) } else { text };
    let t2 = if from2.len() > 0 { replace_all(t1, from2, to2) } else { t1 };
    let changed = (from1.len() > 0 && occurs(text, from1)) || (from2.len() > 0 && occurs(t1, from2));
    if changed {
        Some(t2)
    } else {
        None
    }
}

/// Replaces `old` (also in its `\x20`-escaped form, which GRUB configs
/// use for spaces) with `new`. `None` if `old` doesn't occur.
pub fn replace_label(text: &Vec<u8>, old: &str, new: &str) -> (r: Option<Vec<u8>>)
    ensures
        match (r, spec_replace_label(text@, old@, new@)) {
            (Some(v), Some(w)) => v@ == w,
            (None, None) => true,
            _ => false,
        },
{
    let old_esc = escape_spaces_exec(old);
    let new_esc = escape_spaces_exec(new);
    let mut out = text.clone();
    assert(out@ == text@);
    let mut changed = false;
    let from1 = old_esc.as_str().as_bytes();
    let to1 = new_esc.as_str().as_bytes();
    if from1.len() > 0 {
        let (t, c) = replace_pass(&out, from1, to1);
        out = t;
        changed = c;
    }
    let ghost t1 = out@;
    let from2 = old.as_bytes();
    let to2 = new.as_bytes();
    if from2.len() > 0 {
        let (t, c) = replace_pass(&out, from2, to2);
        out = t;
        changed = changed || c;
    }
    if changed {
        Some(out)
    } else {
        None
    }
}

/// Byte `b` of the MBR `mbr` writes: the disk signature, one active
/// FAT32 (LBA) partition of type 0x0C without CHS addresses, and the boot
/// signature.
pub open spec fn mbr_byte(start_lba: u32, sectors: u32, disk_signature: u32, b: int) -> u8 {
    if 440 <= b < 444 {
        byte32(disk_signature as int, b - 440)
    } else if b == 446 {
        0x80
    } else if b == 447 || b == 451 {
        0xFE
    } else if b == 448 || b == 449 || b == 452 || b == 453 {
        0xFF
    } else if b == 450 {
        0x0C
    } else if 454 <= b < 458 {
        byte32(start_lba as int, b - 454)
    } else if 458 <= b < 462 {
        byte32(sectors as int, b - 458)
    } else if b == 510 {
        0x55
    } else if b == 511 {
        0xAA
    } else {
        0
    }
}

fn mbr_byte_exec(start_lba: u32, sectors: u32, disk_signature: u32, b: usize) -> (r: u8)
    ensures
        r == mbr_byte(start_lba, sectors, disk_signature, b as int),
{
    if 440 <= b && b < 444 {
        byte32_exec(disk_signature, (b - 440) as u32)
    } else if b == 446 {
        0x80
    } else if b == 447 || b == 451 {
        0xFE
    } else if b == 448 || b == 449 || b == 452 || b == 453 {
        0xFF
    } else if b == 450 {
        0x0C
    } else if 454 <= b && b < 458 {
        byte32_exec(start_lba, (b - 454) as u32)
    } else if 458 <= b && b < 462 {
        byte32_exec(sectors, (b - 458) as u32)
    } else if b == 510 {
        0x55
    } else if b == 511 {
        0xAA
    } else {
        0
    }
}

/// The MBR: one sector with one active FAT32 (LBA) partition.
pub fn mbr(sector: usize, start_lba: u32, sectors: u32, disk_signature: u32) -> (r: Vec<u8>)
    requires
        sector >= 512,
    ensures
        r.len() == sector,
        forall|b: int| 0 <= b < sector ==> #[trigger] r@[b] == mbr_byte(start_lba, sectors, disk_signature, b),
{
    let mut m: Vec<u8> = Vec::new();
    let mut b: usize = 0;
    while b < sector
        invariant
            b <= sector,
            m.len() == b,
            forall|k: int| 0 <= k < b ==> #[trigger] m@[k] == mbr_byte(start_lba, sectors, disk_signature, k),
        decreases sector - b,
    {
        m.push(mbr_byte_exec(start_lba, sectors, disk_signature, b));
        b = b + 1;
    }
    m
}

/// A tree `Plan::new` can take: few enough entries in every directory
/// and directories overall.
pub open spec fn tree_ok(tree: Seq<FatNode>) -> bool {
    &&& tree.len() <= MAX_DIR_CHILDREN
    &&& forall|i: int| 0 <= i < tree.len() ==> node_ok(#[trigger] tree[i])
    &&& 1 + dirs_in_list(tree) < usize::MAX
}

/// The partition size file-copy mode uses on a drive of `disk_size`
/// bytes: from 1 MiB to the last whole MiB that 32-bit MBR sector numbers
/// reach.
pub open spec fn copy_partition_bytes(disk_size: int, sector: int) -> int {
    let a = disk_size / (MIB as int) * (MIB as int);
    let b = (u32::MAX as int) * sector / (MIB as int) * (MIB as int);
    let end = if a < b { a } else { b };
    if end > PARTITION_START { end - PARTITION_START } else { 0 }
}

/// What planning the files `tree` on geometry `g` gives: the plan, with
/// `g`, exactly when no file is over 4 GB and the files fit; otherwise the
/// message for an oversized file or for running out of room.
pub open spec fn plan_outcome(r: Result<Plan, FlashError>, g: Geometry, tree: Seq<FatNode>) -> bool {
    &&& r matches Ok(p) ==> p.geometry == g
    &&& any_oversized(tree) ==> (r matches Err(FlashError::Rejected(m)) && exists|name: Seq<char>|
        m@ == #[trigger] too_large_message(name))
    &&& !any_oversized(tree) ==> (r is Ok <==> tree_need(tree, true, cluster_size(g)) <= g.clusters)
    &&& !any_oversized(tree) ==> (r matches Err(FlashError::Rejected(m)) ==> m@ == no_room_message())
}

/// Lays the prepared files out on a drive of `disk_size` bytes.
pub fn plan(prepared: &Prepared, disk_size: u64, sector: u32) -> (r: Result<Plan, FlashError>)
    requires
        tree_ok(prepared.tree@),
    ensures
        ((sector != 512 && sector != 4096) || too_small_for_fat32(
            copy_partition_bytes(disk_size as int, sector as int),
            sector as int,
        )) ==> r matches Err(FlashError::Rejected(_)),
        r matches Ok(p) ==> {
            &&& p.wf()
            &&& geometry_matches(p.geometry, copy_partition_bytes(disk_size as int, sector as int), sector as int)
            &&& p.label@ == volume_label_bytes(prepared.label@)
            &&& p.dirs.len() > 0
            &&& entries_match(p.dirs@[0].entries@, prepared.tree@)
            &&& dir_holds(p.dirs@, 0, prepared.tree@)
        },
        r matches Err(e) ==> e is Rejected,
        ((sector != 512 && sector != 4096) || too_small_for_fat32(
            copy_partition_bytes(disk_size as int, sector as int),
            sector as int,
        )) ==> (r matches Err(FlashError::Rejected(m)) && m@ == geometry_error_text(
            copy_partition_bytes(disk_size as int, sector as int),
            sector,
        )),
        !((sector != 512 && sector != 4096) || too_small_for_fat32(
            copy_partition_bytes(disk_size as int, sector as int),
            sector as int,
        )) ==> exists|g: Geometry| #[trigger] planned_geometry(g, copy_partition_bytes(disk_size as int, sector as int), sector as int)
            && plan_outcome(r, g, prepared.tree@),
{
    let a = disk_size / MIB * MIB;
    let b = (0xFFFF_FFFFu64 * sector as u64) / MIB * MIB;
    let end = if a < b {
        a
    } else {
        b
    };
    let partition = end.saturating_sub(PARTITION_START);
    assert(partition == copy_partition_bytes(disk_size as int, sector as int));
    let geometry = match Geometry::plan(partition, sector) {
        Ok(g) => g,
        Err(m) => return Err(FlashError::Rejected(m)),
    };
    proof {
        lemma_planned_geometry_ok(geometry, partition as int, sector as int);
    }
    let r = match Plan::new(geometry, prepared.label.as_str(), &prepared.tree) {
        Ok(p) => Ok(p),
        Err(m) => Err(FlashError::Rejected(m)),
    };
    assert(plan_outcome(r, geometry, prepared.tree@));
    r
}

/// The size of a file in GB (10^9 bytes) with one decimal, rounded to the
/// nearest tenth, ties to the even one, e.g. `5.4 GB`.
pub open spec fn gb_text(bytes: nat) -> Seq<char> {
    let t = crate::flash::round_half_even(bytes * 10, 1000000000);
    decimal(t / 10) + seq!['.', digit_char(t % 10)] + " GB"@
}

pub fn gb(bytes: u64) -> (r: String)
    ensures
        r@ == gb_text(bytes as nat),
{
    let n: u128 = bytes as u128 * 10;
    let d: u128 = 1000000000;
    let q = n / d;
    let rem = n % d;
    let t: u128 = if 2 * rem < d {
        q
    } else if 2 * rem > d {
        q + 1
    } else if q % 2 == 0 {
        q
    } else {
        q + 1
    };
    assert(t <= 184467440738) by {
        assert(q <= 184467440737095516150int / 1000000000int) by (nonlinear_arith)
            requires
                n <= 184467440737095516150int,
                q == n / 1000000000,
        ;
    }
    let t64 = t as u64;
    let mut s = String::new();
    push_decimal(&mut s, t64 / 10);
    push_char(&mut s, '.');
    push_char(&mut s, digit(t64 % 10));
    s.append(" GB");
    proof {
        reveal_strlit(" GB");
        assert(s@ =~= gb_text(bytes as nat));
    }
    s
}

/// The label to patch in boot configs, if any.
#[derive(Clone, Copy)]
pub struct Relabel<'a> {
    pub old: &'a str,
    pub new: &'a str,
}

/// A boot config file small enough to be searched for the label.
pub open spec fn patch_candidate(name: Seq<char>, size: u64) -> bool {
    spec_is_boot_config(name) && size <= MAX_PATCHED_FILE
}

/// What `read` gives for the extents: the file's bytes.
pub open spec fn reads_as<F: Fn(&Vec<Extent>) -> Result<Vec<u8>, String>>(
    read: F,
    extents: Vec<Extent>,
    bytes: Vec<u8>,
) -> bool {
    call_ensures(read, (&extents,), Ok::<Vec<u8>, String>(bytes))
}

/// The FAT32 file `id, size` takes its contents from the right place:
/// the ISO file's extents, or, for a boot config in which the old label
/// occurs, its patched bytes.
pub open spec fn source_ok<F: Fn(&Vec<Extent>) -> Result<Vec<u8>, String>>(
    src: Source,
    extents: Vec<Extent>,
    iso_size: u64,
    name: Seq<char>,
    size: u64,
    read: F,
    relabel: Option<(Seq<char>, Seq<char>)>,
) -> bool {
    match src {
        Source::Image(e) => e@ == extents@ && size == iso_size && match relabel {
            Some(l) => patch_candidate(name, iso_size) ==> exists|v: Vec<u8>|
                reads_as(read, extents, v) && spec_replace_label(v@, l.0, l.1) is None,
            None => true,
        },
        Source::Patched(b) => size == b.len() && match relabel {
            Some(l) => patch_candidate(name, iso_size) && exists|v: Vec<u8>|
                reads_as(read, extents, v) && spec_replace_label(v@, l.0, l.1) == Some(b@),
            None => false,
        },
    }
}

/// The FAT32 node is the ISO node: same kind, name and date, the same
/// children in the same order, and a file's contents from the right
/// source.
pub open spec fn node_mirrors<F: Fn(&Vec<Extent>) -> Result<Vec<u8>, String>>(
    i: IsoNode,
    f: FatNode,
    sources: Seq<Source>,
    read: F,
    relabel: Option<(Seq<char>, Seq<char>)>,
) -> bool
    decreases i,
{
    match i {
        IsoNode::Dir { name, date, children } => match f {
            FatNode::Dir { name: n, date: d, children: c } => {
                &&& n@ == name@
                &&& (d.date as int, d.time as int) == fat_stamp(
                    date.year as int,
                    date.month as int,
                    date.day as int,
                    date.hour as int,
                    date.minute as int,
                    date.second as int,
                )
                &&& c.len() == children.len()
                &&& forall|k: int|
                    0 <= k < children.len() ==> node_mirrors(
                        #[trigger] children@[k],
                        c@[k],
                        sources,
                        read,
                        relabel,
                    )
            },
            FatNode::File { .. } => false,
        },
        IsoNode::File { name, date, size, extents } => match f {
            FatNode::File { name: n, date: d, size: s, id } => {
                &&& n@ == name@
                &&& (d.date as int, d.time as int) == fat_stamp(
                    date.year as int,
                    date.month as int,
                    date.day as int,
                    date.hour as int,
                    date.minute as int,
                    date.second as int,
                )
                &&& id < sources.len()
                &&& source_ok(sources[id as int], extents, size, name@, s, read, relabel)
            },
            FatNode::Dir { .. } => false,
        },
    }
}

/// The lists mirror each other node by node.
pub open spec fn list_mirrors<F: Fn(&Vec<Extent>) -> Result<Vec<u8>, String>>(
    iso: Seq<IsoNode>,
    fat: Seq<FatNode>,
    sources: Seq<Source>,
    read: F,
    relabel: Option<(Seq<char>, Seq<char>)>,
) -> bool {
    iso.len() == fat.len() && forall|k: int|
        0 <= k < iso.len() ==> node_mirrors(#[trigger] iso[k], fat[k], sources, read, relabel)
}

proof fn lemma_mirrors_extend<F: Fn(&Vec<Extent>) -> Result<Vec<u8>, String>>(
    i: IsoNode,
    f: FatNode,
    s1: Seq<Source>,
    s2: Seq<Source>,
    read: F,
    relabel: Option<(Seq<char>, Seq<char>)>,
)
    requires
        node_mirrors(i, f, s1, read, relabel),
        s1.len() <= s2.len(),
        forall|k: int| 0 <= k < s1.len() ==> s2[k] == s1[k],
    ensures
        node_mirrors(i, f, s2, read, relabel),
    decreases i,
{
    match i {
        IsoNode::Dir { children, .. } => match f {
            FatNode::Dir { children: c, .. } => {
                assert forall|k: int| 0 <= k < children.len() implies node_mirrors(
                    #[trigger] children@[k],
                    c@[k],
                    s2,
                    read,
                    relabel,
                ) by {
                    lemma_mirrors_extend(children@[k], c@[k], s1, s2, read, relabel);
                }
            },
            FatNode::File { .. } => {},
        },
        IsoNode::File { .. } => {},
    }
}

proof fn lemma_list_mirrors_extend<F: Fn(&Vec<Extent>) -> Result<Vec<u8>, String>>(
    iso: Seq<IsoNode>,
    fat: Seq<FatNode>,
    s1: Seq<Source>,
    s2: Seq<Source>,
    read: F,
    relabel: Option<(Seq<char>, Seq<char>)>,
)
    requires
        list_mirrors(iso, fat, s1, read, relabel),
        s1.len() <= s2.len(),
        forall|k: int| 0 <= k < s1.len() ==> s2[k] == s1[k],
    ensures
        list_mirrors(iso, fat, s2, read, relabel),
{
    assert forall|k: int| 0 <= k < iso.len() implies node_mirrors(#[trigger] iso[k], fat[k], s2, read, relabel) by {
        lemma_mirrors_extend(iso[k], fat[k], s1, s2, read, relabel);
    }
}

/// The label pair as texts.
pub open spec fn relabel_view(r: Option<Relabel>) -> Option<(Seq<char>, Seq<char>)> {
    match r {
        Some(l) => Some((l.old@, l.new@)),
        None => None,
    }
}

/// Number of files and directories in a tree.
pub open spec fn node_count(n: IsoNode) -> nat
    decreases n,
{
    match n {
        IsoNode::Dir { children, .. } => 1 + nodes_count(children@),
        IsoNode::File { .. } => 1,
    }
}

/// Number of files and directories in a list of trees.
pub open spec fn nodes_count(s: Seq<IsoNode>) -> nat
    decreases s,
{
    if s.len() == 0 {
        0
    } else {
        nodes_count(s.subrange(0, s.len() - 1)) + node_count(s[s.len() - 1])
    }
}

proof fn lemma_nodes_count_prefix(s: Seq<IsoNode>, i: int)
    requires
        0 <= i < s.len(),
    ensures
        nodes_count(s.take(i + 1)) == nodes_count(s.take(i)) + node_count(s[i]),
        nodes_count(s.take(i + 1)) <= nodes_count(s),
    decreases s.len(),
{
    assert(s.take(i + 1).subrange(0, i) =~= s.take(i));
    if i + 1 < s.len() {
        assert(s.subrange(0, s.len() - 1).take(i + 1) =~= s.take(i + 1));
        lemma_nodes_count_prefix(s.subrange(0, s.len() - 1), i);
        if i + 1 < s.len() - 1 {
            lemma_nodes_count_prefix(s.subrange(0, s.len() - 1), i + 1);
        } else {
            assert(s.subrange(0, s.len() - 1).take(i + 1) =~= s.subrange(0, s.len() - 1));
        }
    } else {
        assert(s.take(i + 1) =~= s);
    }
}

/// Turns the ISO nodes under directory `dir` into FAT32 nodes, adding a
/// source for every file to `out`. `count` counts the nodes seen so far,
/// at most `MAX_NODES`.
fn convert<F: Fn(&Vec<Extent>) -> Result<Vec<u8>, String>>(
    nodes: &Vec<IsoNode>,
    dir: &str,
    read: &F,
    relabel: Option<Relabel>,
    out: &mut Prepared,
    count: &mut usize,
) -> (r: Result<Vec<FatNode>, FlashError>)
    requires
        forall|e: &Vec<Extent>| read.requires((e,)),
        *old(count) <= MAX_NODES,
    ensures
        final(out).label == old(out).label,
        final(out).sources.len() >= old(out).sources.len(),
        forall|k: int| 0 <= k < old(out).sources.len() ==> final(out).sources@[k] == old(out).sources@[k],
        *old(count) <= *final(count) <= MAX_NODES,
        r matches Ok(v) ==> {
            &&& list_mirrors(nodes@, v@, final(out).sources@, *read, relabel_view(relabel))
            &&& v.len() <= *final(count) - *old(count)
            &&& forall|k: int| 0 <= k < v.len() ==> node_ok(#[trigger] v@[k])
            &&& dirs_in_list(v@) <= *final(count) - *old(count)
        },
        r matches Err(e) ==> e is Io || e is Rejected,
        r matches Err(FlashError::Rejected(m)) ==> m@ == "too many files"@ && *old(count) + nodes_count(nodes@)
            > MAX_NODES,
        *old(count) + nodes_count(nodes@) > MAX_NODES ==> r is Err,
        r is Ok ==> *final(count) == *old(count) + nodes_count(nodes@),
    decreases nodes,
{
    let mut result: Vec<FatNode> = Vec::new();
    let mut i: usize = 0;
    let ghost start_count = *count;
    let ghost start_sources = out.sources@;
    while i < nodes.len()
        invariant
            i <= nodes.len(),
            forall|e: &Vec<Extent>| read.requires((e,)),
            start_count <= *count <= MAX_NODES,
            start_count == *old(count),
            start_sources == old(out).sources@,
            out.label == old(out).label,
            out.sources.len() >= start_sources.len(),
            forall|k: int| 0 <= k < start_sources.len() ==> out.sources@[k] == start_sources[k],
            result.len() == i,
            list_mirrors(nodes@.take(i as int), result@, out.sources@, *read, relabel_view(relabel)),
            result.len() <= *count - start_count,
            forall|k: int| 0 <= k < result.len() ==> node_ok(#[trigger] result@[k]),
            dirs_in_list(result@) <= *count - start_count,
            *count == start_count + nodes_count(nodes@.take(i as int)),
        decreases nodes.len() - i,
    {
        proof {
            lemma_nodes_count_prefix(nodes@, i as int);
        }
        if *count >= MAX_NODES {
            proof {
                reveal_strlit("too many files");
            }
            return Err(FlashError::Rejected(text("too many files")));
        }
        *count = *count + 1;
        let ghost before_sources = out.sources@;
        let ghost before_result = result@;
        match &nodes[i] {
            IsoNode::Dir { name, date, children } => {
                let mut path = String::from_str(dir);
                path.append("/");
                path.append(name.as_str());
                let ghost c0 = *count;
                let sub = match convert(children, path.as_str(), read, relabel, out, count) {
                    Ok(v) => v,
                    Err(e) => return Err(e),
                };
                let node = FatNode::Dir { name: name.clone(), date: fat_date(*date), children: sub };
                proof {
                    assert(node_ok(node));
                    lemma_list_mirrors_extend(
                        nodes@.take(i as int),
                        before_result,
                        before_sources,
                        out.sources@,
                        *read,
                        relabel_view(relabel),
                    );
                    assert(dirs_in(node) == 1 + dirs_in_list(sub@));
                }
                result.push(node);
                proof {
                    assert(result@.subrange(0, result@.len() - 1) =~= before_result);
                    assert(nodes@.take(i + 1) =~= nodes@.take(i as int).push(nodes@[i as int]));
                    assert(dirs_in_list(result@) == dirs_in_list(before_result) + dirs_in(node));
                }
            },
            IsoNode::File { name, date, size, extents } => {
                let mut source = Source::Image(extents.clone());
                let mut fsize = *size;
                match relabel {
                    Some(l) => {
                        if is_boot_config(name.as_str()) && *size <= MAX_PATCHED_FILE {
                            let content = match read(extents) {
                                Ok(c) => c,
                                Err(m) => return Err(FlashError::Io(m)),
                            };
                            assert(reads_as(*read, *extents, content));
                            match replace_label(&content, l.old, l.new) {
                                Some(patched) => {
                                    assert(spec_replace_label(content@, l.old@, l.new@) == Some(patched@));
                                    let mut p = String::from_str(dir);
                                    p.append("/");
                                    p.append(name.as_str());
                                    out.patched.push(p);
                                    fsize = patched.len() as u64;
                                    source = Source::Patched(patched);
                                },
                                None => {
                                    assert(spec_replace_label(content@, l.old@, l.new@) is None);
                                },
                            }
                        }
                    },
                    None => {},
                }
                let id = out.sources.len();
                let node = FatNode::File { name: name.clone(), date: fat_date(*date), size: fsize, id };
                out.sources.push(source);
                proof {
                    lemma_list_mirrors_extend(
                        nodes@.take(i as int),
                        before_result,
                        before_sources,
                        out.sources@,
                        *read,
                        relabel_view(relabel),
                    );
                    assert(node_mirrors(nodes@[i as int], node, out.sources@, *read, relabel_view(relabel)));
                }
                result.push(node);
                proof {
                    assert(result@.subrange(0, result@.len() - 1) =~= before_result);
                    assert(nodes@.take(i + 1) =~= nodes@.take(i as int).push(nodes@[i as int]));
                    assert(dirs_in_list(result@) == dirs_in_list(before_result) + dirs_in(node));
                }
            },
        }
        i = i + 1;
    }
    assert(nodes@.take(nodes.len() as int) =~= nodes@);
    proof {
        if nodes.len() == 0 {
            assert(nodes@.take(0) =~= nodes@);
        }
    }
    Ok(result)
}

/// The label patched in boot configs: the image's own label (trimmed),
/// where it isn't empty and the FAT32 label differs from it.
pub open spec fn spec_relabel(volume_label: Seq<char>) -> Option<(Seq<char>, Seq<char>)> {
    let old = trimmed(volume_label);
    let new = label_text(volume_label);
    if old.len() > 0 && old != new {
        Some((old, new))
    } else {
        None
    }
}

/// Why `prepare` refuses a tree, as the message it gives, if it does.
pub open spec fn prepare_rejection(children: Seq<IsoNode>, has_udf: bool) -> Option<Seq<char>> {
    if !spec_has_uefi_loader(children) {
        Some(
            spec_rejection_text(
                if has_udf {
                    TreeRejection::WindowsInstaller
                } else {
                    TreeRejection::NoUefiLoader
                },
                Seq::empty(),
            ),
        )
    } else if has_oversized_file(children) {
        let l = largest_in(children)->0;
        Some(too_large_text(l.0, gb_text(l.1 as nat)))
    } else {
        None
    }
}

/// Turns an image's tree into what the FAT32 builder takes: every file
/// and directory in the same place, file contents from the image, and
/// the boot configs that mention the image's label patched to the FAT32
/// label. `read` gives the bytes of a file's extents.
pub fn prepare<F: Fn(&Vec<Extent>) -> Result<Vec<u8>, String>>(tree: &IsoTree, read: F) -> (r: Result<
    Prepared,
    FlashError,
>)
    requires
        forall|e: &Vec<Extent>| read.requires((e,)),
    ensures
        match prepare_rejection(tree.children@, tree.has_udf) {
            Some(m) => r matches Err(FlashError::Rejected(s)) && s@ == m,
            None => {
                &&& r is Ok || r matches Err(FlashError::Io(_)) || (r matches Err(FlashError::Rejected(m))
                    && m@ == "too many files"@ && nodes_count(tree.children@) > MAX_NODES)
                &&& nodes_count(tree.children@) > MAX_NODES ==> r is Err
            },
        },
        r matches Ok(p) ==> {
            &&& p.label@ == label_text(tree.volume_label@)
            &&& tree_ok(p.tree@)
            &&& list_mirrors(tree.children@, p.tree@, p.sources@, read, spec_relabel(tree.volume_label@))
        },
{
    match check_tree(tree) {
        Ok(()) => {},
        Err(rej) => {
            let size_text = match &rej {
                TreeRejection::FileTooLarge { size, .. } => gb(*size),
                _ => String::new(),
            };
            proof {
                if !spec_has_uefi_loader(tree.children@) {
                    assert(size_text@ == Seq::<char>::empty());
                }
            }
            return Err(FlashError::Rejected(rejection_text(&rej, size_text.as_str())));
        },
    }
    let label = volume_label_text(tree.volume_label.as_str());
    let new_label = label.clone();
    let old = trim_str(tree.volume_label.as_str());
    let patch = old.unicode_len() > 0 && !str_eq(old.as_str(), new_label.as_str());
    let mut prepared = Prepared { tree: Vec::new(), sources: Vec::new(), label, patched: Vec::new() };
    let mut count: usize = 0;
    let relabel = if patch {
        Some(Relabel { old: old.as_str(), new: new_label.as_str() })
    } else {
        None
    };
    assert(relabel_view(relabel) == spec_relabel(tree.volume_label@));
    let nodes = match convert(&tree.children, "", &read, relabel, &mut prepared, &mut count) {
        Ok(v) => v,
        Err(e) => return Err(e),
    };
    prepared.tree = nodes;
    Ok(prepared)
}

/// Whether an image whose tree was read (`None`: not readable as an ISO
/// 9660 image) can be written file by file, and why not.
pub fn copy_mode_info(tree: Option<&IsoTree>) -> (r: CopyModeInfo)
    ensures
        match tree {
            None => !r.supported && r.label is None && (r.reason matches Some(m)
                && m@ == "only ISO images can be copied file by file"@),
            Some(t) => match prepare_rejection(t.children@, t.has_udf) {
                Some(m) => !r.supported && r.label is None && (r.reason matches Some(x) && x@ == m),
                None => r.supported && r.reason is None && (r.label matches Some(l) && l@ == label_text(
                    t.volume_label@,
                )),
            },
        },
{
    match tree {
        None => CopyModeInfo {
            supported: false,
            reason: Some(text("only ISO images can be copied file by file")),
            label: None,
        },
        Some(t) => match check_tree(t) {
            Ok(()) => CopyModeInfo {
                supported: true,
                reason: None,
                label: Some(volume_label_text(t.volume_label.as_str())),
            },
            Err(rej) => {
                let size_text = match &rej {
                    TreeRejection::FileTooLarge { size, .. } => gb(*size),
                    _ => String::new(),
                };
                proof {
                    if !spec_has_uefi_loader(t.children@) {
                        assert(size_text@ == Seq::<char>::empty());
                    }
                }
                CopyModeInfo {
                    supported: false,
                    reason: Some(rejection_text(&rej, size_text.as_str())),
                    label: None,
                }
            },
        },
    }
}

} // verus!
