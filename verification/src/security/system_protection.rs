//! Recognizes the disk that hosts the running system, so that a bug
//! elsewhere (a wrong disk id, a stale plan) cannot end with MoonDisk
//! formatting the machine it runs on.
use vstd::prelude::*;
use crate::models::{trim_str, trimmed};
use crate::text::{fields_of, lines_of, split_fields, split_lines, starts_with, strings_view};

verus! {

/// The source of the first mount of `/` among the lines of
/// `/proc/mounts` (device, mount point, ...).
pub open spec fn root_source_of(lines: Seq<Seq<char>>) -> Option<Seq<char>>
    decreases lines.len(),
{
    if lines.len() == 0 {
        None
    } else {
        let f = fields_of(lines[0]);
        if f.len() >= 2 && f[1] == "/"@ {
            Some(f[0])
        } else {
            root_source_of(lines.skip(1))
        }
    }
}

/// The mount source of `/` in the text of `/proc/mounts`.
pub fn root_source(mounts: &str) -> (r: Option<String>)
    ensures
        match r {
            Some(s) => root_source_of(lines_of(mounts@)) == Some(s@),
            None => root_source_of(lines_of(mounts@)) is None,
        },
{
    let lines = split_lines(mounts);
    let ghost ls = lines_of(mounts@);
    let mut i: usize = 0;
    assert(strings_view(lines@).skip(0) =~= ls);
    while i < lines.len()
        invariant
            i <= lines.len(),
            strings_view(lines@) == ls,
            ls == lines_of(mounts@),
            root_source_of(ls) == root_source_of(ls.skip(i as int)),
        decreases lines.len() - i,
    {
        let f = split_fields(lines[i].as_str());
        assert(ls.skip(i as int)[0] == lines@[i as int]@);
        assert(ls.skip(i as int).skip(1) =~= ls.skip(i + 1));
        if f.len() >= 2 && crate::models::str_eq(f[1].as_str(), "/") {
            assert(strings_view(f@)[1] == f@[1]@);
            assert(strings_view(f@)[0] == f@[0]@);
            let r = f[0].clone();
            assert(fields_of(ls.skip(i as int)[0]) == strings_view(f@));
            assert(root_source_of(ls.skip(i as int)) == Some(f@[0]@));
            assert(r@ == f@[0]@);
            return Some(r);
        }
        proof {
            if f.len() >= 2 {
                assert(strings_view(f@)[1] == f@[1]@);
            }
        }
        i = i + 1;
    }
    None
}

/// The disk a partition device belongs to, from what `lsblk -no pkname`
/// printed for it (`None` where it failed): `/dev/` and the parent's
/// name, or the device itself where no parent was named.
pub open spec fn parent_disk_of(path: Seq<char>, pkname: Option<Seq<char>>) -> Seq<char> {
    match pkname {
        Some(out) => {
            let p = trimmed(out);
            if p.len() == 0 {
                path
            } else {
                "/dev/"@ + p
            }
        },
        None => path,
    }
}

/// The text of an optional string.
pub open spec fn opt_view(o: Option<String>) -> Option<Seq<char>> {
    match o {
        Some(s) => Some(s@),
        None => None,
    }
}

/// Resolves a partition device to its parent disk, given the output of
/// `lsblk -no pkname` for it. Falls back to the device itself, which
/// still protects at least that exact device node.
pub fn resolve_to_parent_disk(partition_path: &str, pkname_output: Option<&str>) -> (r: String)
    ensures
        r@ == parent_disk_of(partition_path@, match pkname_output {
            Some(o) => Some(o@),
            None => None,
        }),
{
    match pkname_output {
        Some(out) => {
            let parent = trim_str(out);
            if parent.unicode_len() == 0 {
                String::from_str(partition_path)
            } else {
                let mut s = String::from_str("/dev/");
                s.append(parent.as_str());
                s
            }
        },
        None => String::from_str(partition_path),
    }
}

/// The disk to protect: the parent disk of the device mounted at `/`,
/// or nothing where `/` isn't backed by a device under `/dev/` (overlay,
/// tmpfs, network file systems). `mounts` is the text of
/// `/proc/mounts`; `pkname` asks `lsblk` for a device's parent, `None`
/// where that failed.
pub fn system_disk_source_linux<F: Fn(String) -> Option<String>>(mounts: &str, pkname: F) -> (r:
    Option<String>)
    requires
        forall|p: String| pkname.requires((p,)),
    ensures
        match root_source_of(lines_of(mounts@)) {
            None => r is None,
            Some(src) => if src.len() >= 5 && src.take(5) == "/dev/"@ {
                exists|p: String, out: Option<String>|
                    p@ == src && call_ensures(pkname, (p,), out) && (r matches Some(d) && d@
                        == parent_disk_of(src, opt_view(out)))
            } else {
                r is None
            },
        },
{
    let root = match root_source(mounts) {
        Some(s) => s,
        None => return None,
    };
    proof {
        reveal_strlit("/dev/");
    }
    if !starts_with(root.as_str(), "/dev/") {
        return None;
    }
    let arg = root.clone();
    let out = pkname(arg);
    let resolved = match &out {
        Some(o) => resolve_to_parent_disk(root.as_str(), Some(o.as_str())),
        None => resolve_to_parent_disk(root.as_str(), None),
    };
    Some(resolved)
}

} // verus!
