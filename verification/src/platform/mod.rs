//! Platform abstraction: the read side (`DiskInventory`) and what the
//! providers share. The OS-specific parsing lives in the submodules; the
//! commands that read the OS live outside this library.
use vstd::prelude::*;
use crate::models::{Disk, DiskId, PartitionTable};

pub mod linux;
pub mod linux_executor;
pub mod macos;
pub mod macos_executor;
pub mod mock;
pub mod windows;
pub mod windows_executor;

verus! {

/// No partition may start in the first MiB of a disk (MBR / protective MBR
/// and primary GPT) nor, on GPT, reach into the last MiB (backup GPT).
pub const PARTITION_TABLE_RESERVE: u64 = 1048576;

/// The byte range `[start, end)` partitions may occupy on a disk of
/// `disk_size` bytes, as a pair of plain numbers.
pub open spec fn spec_usable_range(disk_size: u64, table: PartitionTable) -> (u64, u64) {
    let start = if PARTITION_TABLE_RESERVE <= disk_size {
        PARTITION_TABLE_RESERVE
    } else {
        disk_size
    };
    let end: u64 = match table {
        PartitionTable::Mbr => disk_size,
        _ => if disk_size >= PARTITION_TABLE_RESERVE {
            (disk_size - PARTITION_TABLE_RESERVE) as u64
        } else {
            0
        },
    };
    (start, if end >= start { end } else { start })
}

/// The byte range partitions may occupy. A disk with no table yet is
/// treated like GPT, which is what it is initialized as.
pub fn usable_range(disk_size: u64, table: PartitionTable) -> (r: (u64, u64))
    ensures
        r == spec_usable_range(disk_size, table),
        r.0 <= r.1 <= disk_size,
        PARTITION_TABLE_RESERVE <= disk_size ==> r.0 == PARTITION_TABLE_RESERVE,
        table is Mbr && PARTITION_TABLE_RESERVE <= disk_size ==> r.1 == disk_size,
        !(table is Mbr) && 2 * PARTITION_TABLE_RESERVE <= disk_size ==> r.1 == disk_size
            - PARTITION_TABLE_RESERVE,
{
    let start = if PARTITION_TABLE_RESERVE <= disk_size {
        PARTITION_TABLE_RESERVE
    } else {
        disk_size
    };
    let end = match table {
        PartitionTable::Mbr => disk_size,
        PartitionTable::Gpt | PartitionTable::NoTable => disk_size.saturating_sub(
            PARTITION_TABLE_RESERVE,
        ),
    };
    (start, if end >= start { end } else { start })
}

/// Why the disks could not be read.
#[derive(Debug)]
pub enum InventoryError {
    DiskNotFound(DiskId),
    ReadFailed(String),
    Unsupported,
}

/// The message shown for an inventory error.
pub open spec fn inventory_text(e: InventoryError) -> Seq<char> {
    match e {
        InventoryError::DiskNotFound(id) => "disk "@ + id.0@ + " not found"@,
        InventoryError::ReadFailed(m) => "could not read disk information: "@ + m@,
        InventoryError::Unsupported => "not supported on this platform"@,
    }
}

impl InventoryError {
    /// The message shown to the user.
    pub fn message(&self) -> (r: String)
        ensures
            r@ == inventory_text(*self),
    {
        match self {
            InventoryError::DiskNotFound(id) => {
                let mut m = String::from_str("disk ");
                m.append(id.0.as_str());
                m.append(" not found");
                m
            },
            InventoryError::ReadFailed(s) => {
                let mut m = String::from_str("could not read disk information: ");
                m.append(s.as_str());
                m
            },
            InventoryError::Unsupported => String::from_str("not supported on this platform"),
        }
    }
}

#[derive(Debug, Clone, Copy, PartialEq, Eq, Structural)]
pub enum InventorySource {
    Linux,
    Windows,
    MacOs,
    Mock,
}

/// Index of the first disk with this id, or the number of disks.
pub open spec fn disk_index(disks: Seq<Disk>, id: Seq<char>) -> int
    decreases disks.len(),
{
    if disks.len() == 0 {
        0
    } else if disks[0].id.0@ == id {
        0
    } else {
        1 + disk_index(disks.drop_first(), id)
    }
}

pub proof fn lemma_disk_index(disks: Seq<Disk>, id: Seq<char>)
    ensures
        0 <= disk_index(disks, id) <= disks.len(),
        disk_index(disks, id) < disks.len() ==> disks[disk_index(disks, id)].id.0@ == id,
        forall|j: int| 0 <= j < disk_index(disks, id) ==> disks[j].id.0@ != id,
    decreases disks.len(),
{
    if disks.len() > 0 && disks[0].id.0@ != id {
        lemma_disk_index(disks.drop_first(), id);
        assert forall|j: int| 0 <= j < disk_index(disks, id) implies disks[j].id.0@ != id by {
            if j > 0 {
                assert(disks[j] == disks.drop_first()[j - 1]);
            }
        }
    }
}

/// Position of the disk with this id in a listing, if it is there.
pub fn find_disk(disks: &Vec<Disk>, id: &DiskId) -> (r: Option<usize>)
    ensures
        disk_index(disks@, id.0@) < disks@.len() ==> r == Some(
            disk_index(disks@, id.0@) as usize,
        ),
        disk_index(disks@, id.0@) == disks@.len() ==> r is None,
{
    proof {
        lemma_disk_index(disks@, id.0@);
    }
    let mut i: usize = 0;
    while i < disks.len()
        invariant
            i <= disks@.len(),
            forall|j: int| 0 <= j < i ==> disks@[j].id.0@ != id.0@,
            0 <= disk_index(disks@, id.0@) <= disks@.len(),
            disk_index(disks@, id.0@) < disks@.len() ==> disks@[disk_index(
                disks@,
                id.0@,
            )].id.0@ == id.0@,
            forall|j: int| 0 <= j < disk_index(disks@, id.0@) ==> disks@[j].id.0@ != id.0@,
        decreases disks@.len() - i,
    {
        if disks[i].id.0 == id.0 {
            proof {
                if disk_index(disks@, id.0@) < i {
                    assert(disks@[disk_index(disks@, id.0@)].id.0@ == id.0@);
                }
                if disk_index(disks@, id.0@) > i {
                    assert(disks@[i as int].id.0@ != id.0@);
                }
            }
            return Some(i);
        }
        i = i + 1;
    }
    proof {
        if disk_index(disks@, id.0@) < disks@.len() {
            assert(disks@[disk_index(disks@, id.0@)].id.0@ == id.0@);
        }
    }
    None
}

/// A listing as plain values: the disks, or why they could not be read.
pub open spec fn listing_view(r: Result<Vec<Disk>, InventoryError>) -> Result<Seq<Disk>, InventoryError> {
    match r {
        Ok(v) => Ok(v@),
        Err(e) => Err(e),
    }
}

/// `r` is what looking disk `id` up in listing `l` gives: the first disk
/// with that id, `DiskNotFound` where there is none, or the listing's
/// error.
pub open spec fn disk_from_listing(
    l: Result<Seq<Disk>, InventoryError>,
    id: Seq<char>,
    r: Result<Disk, InventoryError>,
) -> bool {
    match l {
        Err(e) => r == Err::<Disk, InventoryError>(e),
        Ok(ds) => if disk_index(ds, id) < ds.len() {
            r == Ok::<Disk, InventoryError>(ds[disk_index(ds, id)])
        } else {
            r matches Err(InventoryError::DiskNotFound(x)) && x.0@ == id
        },
    }
}

/// Read-only access to disk information. No implementation writes to a
/// device.
pub trait DiskInventory {
    /// Whether `l` is what a listing of this inventory gives.
    spec fn lists(&self, l: Result<Seq<Disk>, InventoryError>) -> bool;

    fn source(&self) -> InventorySource;

    fn list_disks(&self) -> (r: Result<Vec<Disk>, InventoryError>)
        ensures
            self.lists(listing_view(r)),
    ;

    /// The disk with this id, from a fresh listing.
    fn disk(&self, id: &DiskId) -> (r: Result<Disk, InventoryError>)
        ensures
            exists|l: Result<Seq<Disk>, InventoryError>| #[trigger] self.lists(l) && disk_from_listing(l, id.0@, r),
            r matches Ok(d) ==> d.id.0@ == id.0@,
    {
        let listing = self.list_disks();
        let ghost l = listing_view(listing);
        match listing {
            Ok(disks0) => {
                assert(l == Ok::<Seq<Disk>, InventoryError>(disks0@));
                let mut disks = disks0;
                let ghost ds = disks@;
                proof {
                    lemma_disk_index(disks@, id.0@);
                }
                let found = find_disk(&disks, id);
                assert(0 <= disk_index(ds, id.0@) <= ds.len());
                assert(found is Some ==> disk_index(ds, id.0@) != ds.len());
                match found {
                    Some(i) => {
                        let d = disks.swap_remove(i);
                        assert(l == Ok::<Seq<Disk>, InventoryError>(ds));
                        assert(disk_index(ds, id.0@) < ds.len());
                        assert(i == disk_index(ds, id.0@));
                        assert(d == ds[i as int]);
                        assert(disk_from_listing(l, id.0@, Ok::<Disk, InventoryError>(d)));
                        Ok(d)
                    },
                    None => {
                        let r = Err(InventoryError::DiskNotFound(DiskId(id.0.clone())));
                        assert(disk_from_listing(l, id.0@, r));
                        r
                    },
                }
            },
            Err(e) => Err(e),
        }
    }
}


/// One run of an outside tool: the program and its arguments, each passed
/// as it is (no shell).
#[derive(Debug)]
pub struct ToolCall {
    pub program: String,
    pub args: Vec<String>,
}

/// The program and arguments of a call, as text.
pub open spec fn call_view(c: ToolCall) -> (Seq<char>, Seq<Seq<char>>) {
    (c.program@, c.args@.map_values(|a: String| a@))
}

/// One step of carrying out an operation.
#[derive(Debug)]
pub enum Step {
    /// Run the tool; a failure fails the operation.
    Run(ToolCall),
    /// Ask the kernel to re-read the disk's partition table, best effort.
    Rescan(String),
}

/// The text of a literal, as a `String`.
pub fn text(s: &str) -> (r: String)
    ensures
        r@ == s@,
{
    String::from_str(s)
}

/// A call of `program` with `args`.
pub fn tool(program: &str, args: Vec<String>) -> (r: ToolCall)
    ensures
        call_view(r) == (program@, args@.map_values(|a: String| a@)),
{
    ToolCall { program: String::from_str(program), args }
}

} // verus!
