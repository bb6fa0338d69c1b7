//! The complete layout of a FAT32 volume, planned before anything is
//! written: every directory and file gets a contiguous cluster range, in
//! the order the volume is then written from its first byte to its last.
use vstd::prelude::*;
use crate::flash::fat32::{Geometry, MAX_FILE_SIZE, total_sectors_for, data_start_for, sat_sub};
use crate::models::{decimal, push_decimal};
use crate::flash::fat_entries::{
    byte16, byte16_exec, byte32, byte32_exec, checksum_upto, encode_utf16, lemma_utf16_units_len,
    lfn_checksum, lfn_entries, lfn_entries_bytes, short_entry, short_entry_bytes, utf16_units,
    FatDateTime,
};
use crate::flash::fat_names::{
    lemma_short_name_room, lemma_short_names_prefix, lemma_unique_names_len, short_name,
    short_name_of, short_names, shorts_taken, texts, unique_long_names, unique_names, utf16_len,
    views, volume_label, volume_label_bytes,
};

verus! {

/// A directory holds at most this many names: fewer than the numbered
/// 8.3 names there are, so every name gets one.
pub const MAX_DIR_CHILDREN: usize = 9000000;

/// What goes onto the volume. File contents are provided by the caller
/// while writing, identified by `id`.
#[derive(Debug)]
pub enum FatNode {
    Dir { name: String, date: FatDateTime, children: Vec<FatNode> },
    File { name: String, date: FatDateTime, size: u64, id: usize },
}

impl FatNode {
    pub open spec fn spec_name(&self) -> Seq<char> {
        match self {
            FatNode::Dir { name, .. } => name@,
            FatNode::File { name, .. } => name@,
        }
    }

    pub fn name(&self) -> (r: &String)
        ensures
            r@ == self.spec_name(),
    {
        match self {
            FatNode::Dir { name, .. } => name,
            FatNode::File { name, .. } => name,
        }
    }
}

/// Every directory in the tree holds at most `MAX_DIR_CHILDREN` names.
pub open spec fn node_ok(n: FatNode) -> bool
    decreases n,
{
    match n {
        FatNode::Dir { children, .. } => children.len() <= MAX_DIR_CHILDREN && forall|i: int|
            0 <= i < children.len() ==> node_ok(#[trigger] children[i]),
        FatNode::File { .. } => true,
    }
}

/// Number of directories in a tree.
pub open spec fn dirs_in(n: FatNode) -> nat
    decreases n,
{
    match n {
        FatNode::Dir { children, .. } => 1 + dirs_in_list(children@),
        FatNode::File { .. } => 0,
    }
}

/// Number of directories in a list of trees.
pub open spec fn dirs_in_list(s: Seq<FatNode>) -> nat
    decreases s,
{
    if s.len() == 0 {
        0
    } else {
        dirs_in_list(s.subrange(0, s.len() - 1)) + dirs_in(s[s.len() - 1])
    }
}

pub proof fn lemma_dirs_in_prefix(s: Seq<FatNode>, i: int)
    requires
        0 <= i < s.len(),
    ensures
        dirs_in_list(s.take(i + 1)) == dirs_in_list(s.take(i)) + dirs_in(s[i]),
        dirs_in_list(s.take(i + 1)) <= dirs_in_list(s),
    decreases s.len(),
{
    assert(s.take(i + 1).subrange(0, i) =~= s.take(i));
    if i + 1 < s.len() {
        assert(s.subrange(0, s.len() - 1).take(i + 1) =~= s.take(i + 1));
        lemma_dirs_in_prefix(s.subrange(0, s.len() - 1), i);
        if i + 1 < s.len() - 1 {
            lemma_dirs_in_prefix(s.subrange(0, s.len() - 1), i + 1);
        } else {
            assert(s.subrange(0, s.len() - 1).take(i + 1) =~= s.subrange(0, s.len() - 1));
        }
    } else {
        assert(s.take(i + 1) =~= s);
    }
}

/// A file in the tree is too large for FAT32.
pub open spec fn oversized(n: FatNode) -> bool
    decreases n,
{
    match n {
        FatNode::Dir { children, .. } => exists|i: int|
            0 <= i < children.len() && oversized(#[trigger] children[i]),
        FatNode::File { size, .. } => size > MAX_FILE_SIZE,
    }
}

/// Some node in the list holds a file too large for FAT32.
pub open spec fn any_oversized(nodes: Seq<FatNode>) -> bool {
    exists|i: int| 0 <= i < nodes.len() && oversized(#[trigger] nodes[i])
}

/// Where a file's contents ended up, for verification.
#[derive(Debug, Clone, Copy, PartialEq, Eq, Structural)]
pub struct Placement {
    pub id: usize,
    /// Bytes from the start of the partition.
    pub offset: u64,
    pub size: u64,
}

#[derive(Clone, Copy)]
pub enum EntryKind {
    Dir(usize),
    File { id: usize, size: u64 },
}

pub struct Entry {
    pub short: [u8; 11],
    pub long: Option<Vec<u16>>,
    pub date: FatDateTime,
    pub kind: EntryKind,
}

pub struct PlannedDir {
    pub clusters: u32,
    pub parent: usize,
    pub is_root: bool,
    pub entries: Vec<Entry>,
}

#[derive(Clone, Copy)]
pub enum Slot {
    Dir(usize),
    File { id: usize, size: u64 },
}

/// The complete layout of a volume, ready to be written.
pub struct Plan {
    pub geometry: Geometry,
    pub label: [u8; 11],
    pub dirs: Vec<PlannedDir>,
    /// First cluster of every directory.
    pub dir_first: Vec<u32>,
    pub slots: Vec<Slot>,
    /// Last cluster of every allocated chain, ascending.
    pub chain_ends: Vec<u32>,
    pub used_clusters: u32,
    pub placements: Vec<Placement>,
}

/// Bytes per cluster.
pub open spec fn cluster_size(g: Geometry) -> int {
    g.sectors_per_cluster * g.bytes_per_sector
}

/// Geometries a plan can be made for: clusters of at least a sector of
/// 512 bytes, cluster numbers that fit 32 bits, and byte offsets that fit
/// 64.
pub open spec fn geometry_ok(g: Geometry) -> bool {
    &&& cluster_size(g) >= 512
    &&& g.clusters + 2 <= u32::MAX
    &&& g.spec_data_offset() + g.clusters * cluster_size(g) <= u64::MAX
}

/// A geometry `Geometry::plan` picks is one a plan can be made for.
pub proof fn lemma_planned_geometry_ok(g: Geometry, bytes: int, bps: int)
    requires
        bps == 512 || bps == 4096,
        0 <= bytes <= u64::MAX,
        crate::flash::fat32::geometry_matches(g, bytes, bps),
        crate::flash::fat32::MIN_CLUSTERS <= g.clusters <= crate::flash::fat32::MAX_CLUSTERS,
    ensures
        geometry_ok(g),
{
    let total = total_sectors_for(bytes, bps);
    let spc = g.sectors_per_cluster as int;
    let ds = data_start_for(total, bps, spc);
    assert(spc * bps >= bps) by (nonlinear_arith)
        requires
            spc >= 1,
            bps > 0,
    ;
    assert((spc * bps) / bps == spc) by (nonlinear_arith)
        requires
            spc >= 1,
            bps > 0,
    ;
    assert(g.clusters == sat_sub(total, ds) / spc);
    assert(total > ds) by {
        if total <= ds {
            assert(sat_sub(total, ds) == 0);
        }
    }
    assert(g.clusters * spc <= total - ds) by (nonlinear_arith)
        requires
            g.clusters == (total - ds) / spc,
            spc >= 1,
            total > ds,
    ;
    assert(total * bps <= bytes) by (nonlinear_arith)
        requires
            total <= bytes / bps,
            bps > 0,
            bytes >= 0,
    ;
    assert((ds + g.clusters * spc) * bps <= total * bps) by (nonlinear_arith)
        requires
            ds + g.clusters * spc <= total,
            bps > 0,
    ;
    assert(g.spec_data_offset() + g.clusters * cluster_size(g) == (ds + g.clusters * spc) * bps)
        by (nonlinear_arith)
        requires
            g.spec_data_offset() == ds * bps,
            cluster_size(g) == spc * bps,
    ;
}

/// Clusters a file of `size` bytes takes.
pub open spec fn file_clusters(size: int, cb: int) -> int {
    (size + cb - 1) / cb
}

/// Directory entries a name takes: its 8.3 entry and one per 13 units of
/// its long name.
pub open spec fn entry_slots(e: Entry) -> int {
    1 + match e.long {
        Some(l) => (l.len() + 12) / 13,
        None => 0,
    }
}

pub open spec fn entries_slots(es: Seq<Entry>) -> int
    decreases es.len(),
{
    if es.len() == 0 {
        0
    } else {
        entries_slots(es.drop_last()) + entry_slots(es.last())
    }
}

/// Directory entries of a directory, with `.` (and `..` below the root).
pub open spec fn dir_slots(d: PlannedDir) -> int {
    entries_slots(d.entries@) + if d.is_root {
        1int
    } else {
        2int
    }
}

/// Clusters a directory of `slots` entries takes: at least one.
pub open spec fn dir_clusters(slots: int, cb: int) -> int {
    let c = (slots * 32 + cb - 1) / cb;
    if c < 1 {
        1
    } else {
        c
    }
}

/// The shape of the directories: subdirectories come after their
/// parent, names are bounded, and each directory fits its clusters.
pub open spec fn dirs_ok(dirs: Seq<PlannedDir>, cb: int, from: int) -> bool {
    &&& forall|i: int| 0 <= i < dirs.len() ==> dir_links_ok(dirs, i)
    &&& forall|i: int| from <= i < dirs.len() ==> dir_size_ok(#[trigger] dirs[i], cb)
}

pub open spec fn dir_links_ok(dirs: Seq<PlannedDir>, i: int) -> bool {
    &&& dirs[i].parent <= i
    &&& forall|k: int|
        0 <= k < dirs[i].entries.len() ==> match #[trigger] dirs[i].entries@[k].kind {
            EntryKind::Dir(sub) => i < sub < dirs.len() && dirs[sub as int].parent == i,
            EntryKind::File { size, .. } => size <= MAX_FILE_SIZE,
        }
}

pub open spec fn dir_size_ok(d: PlannedDir, cb: int) -> bool {
    &&& d.entries.len() <= MAX_DIR_CHILDREN
    &&& forall|k: int|
        0 <= k < d.entries.len() ==> match #[trigger] d.entries@[k].long {
            Some(l) => l.len() <= 268,
            None => true,
        }
    &&& d.clusters == dir_clusters(dir_slots(d), cb)
    &&& d.clusters * cb >= dir_slots(d) * 32
}

pub proof fn lemma_entries_slots(es: Seq<Entry>)
    requires
        forall|k: int|
            0 <= k < es.len() ==> match #[trigger] es[k].long {
                Some(l) => l.len() <= 268,
                None => true,
            },
    ensures
        0 <= entries_slots(es) <= 22 * es.len(),
    decreases es.len(),
{
    if es.len() > 0 {
        lemma_entries_slots(es.drop_last());
        match es.last().long {
            Some(l) => {
                assert((l.len() + 12) / 13 <= 21);
            },
            None => {},
        }
    }
}

impl Plan {
    pub open spec fn cb(&self) -> int {
        cluster_size(self.geometry)
    }

    /// Clusters slot `s` takes.
    pub open spec fn slot_clusters(&self, s: Slot) -> int {
        match s {
            Slot::Dir(i) => self.dirs@[i as int].clusters as int,
            Slot::File { size, .. } => file_clusters(size as int, self.cb()),
        }
    }

    /// Clusters allocated to the first `k` slots.
    pub open spec fn clusters_before(&self, k: int) -> int
        decreases k,
    {
        if k <= 0 {
            0
        } else {
            self.clusters_before(k - 1) + self.slot_clusters(self.slots@[k - 1])
        }
    }

    /// Where the first `k` slots put file data: every file with contents,
    /// at the start of its clusters.
    pub open spec fn placements_upto(&self, k: int) -> Seq<Placement>
        decreases k,
    {
        if k <= 0 {
            Seq::empty()
        } else {
            let p = self.placements_upto(k - 1);
            match self.slots@[k - 1] {
                Slot::File { id, size } => if size > 0 {
                    p.push(
                        Placement {
                            id,
                            offset: (self.geometry.spec_data_offset() + self.clusters_before(k - 1)
                                * self.cb()) as u64,
                            size,
                        },
                    )
                } else {
                    p
                },
                Slot::Dir(_) => p,
            }
        }
    }

    /// The last cluster of every chain the first `k` slots allocated.
    pub open spec fn chain_ends_upto(&self, k: int) -> Seq<u32>
        decreases k,
    {
        if k <= 0 {
            Seq::empty()
        } else {
            let e = self.chain_ends_upto(k - 1);
            if self.slot_clusters(self.slots@[k - 1]) > 0 {
                e.push((2 + self.clusters_before(k) - 1) as u32)
            } else {
                e
            }
        }
    }

    /// The allocation so far matches the slots.
    pub open spec fn allocation_ok(&self) -> bool {
        &&& geometry_ok(self.geometry)
        &&& self.dir_first.len() == self.dirs.len()
        &&& forall|k: int|
            0 <= k < self.slots.len() ==> match #[trigger] self.slots@[k] {
                Slot::Dir(i) => i < self.dirs.len(),
                Slot::File { size, .. } => size <= MAX_FILE_SIZE,
            }
        &&& self.clusters_before(self.slots.len() as int) <= self.geometry.clusters
        &&& self.placements@ == self.placements_upto(self.slots.len() as int)
        &&& self.chain_ends@ == self.chain_ends_upto(self.slots.len() as int)
    }

    /// A complete plan: the directories are in shape and every cluster
    /// handed out is counted.
    pub open spec fn wf(&self) -> bool {
        &&& self.allocation_ok()
        &&& dirs_ok(self.dirs@, self.cb(), 0)
        &&& self.used_clusters == self.clusters_before(self.slots.len() as int)
    }
}


/// The error for a file FAT32 can't hold.
pub open spec fn too_large_message(name: Seq<char>) -> Seq<char> {
    name + " is larger than FAT32's 4 GB file limit"@
}

/// The entries of a directory match its children one by one.
pub open spec fn entries_match(entries: Seq<Entry>, children: Seq<FatNode>) -> bool {
    &&& entries.len() == children.len()
    &&& forall|k: int|
        0 <= k < children.len() ==> match (#[trigger] children[k], entries[k].kind) {
            (FatNode::File { id, size, .. }, EntryKind::File { id: id2, size: size2 }) => id == id2
                && size == size2,
            (FatNode::Dir { .. }, EntryKind::Dir(_)) => true,
            _ => false,
        }
}

/// The date of a node.
pub open spec fn node_date(n: FatNode) -> FatDateTime {
    match n {
        FatNode::Dir { date, .. } => date,
        FatNode::File { date, .. } => date,
    }
}

/// One entry as it is written for node `n`: its 8.3 name, a long name in
/// UTF-16 exactly where the 8.3 name does not keep the name, and its date.
pub open spec fn entry_named(e: Entry, long: Seq<char>, short: (Seq<u8>, bool), n: FatNode) -> bool {
    &&& e.short@ == short.0
    &&& if short.1 {
        e.long matches Some(u) && u@ == utf16_units(long)
    } else {
        e.long is None
    }
    &&& e.date == node_date(n)
}

/// The names of a directory's entries: the long names `unique_names`
/// makes of its children's names, and the 8.3 names picked for them in
/// order.
pub open spec fn entries_named(entries: Seq<Entry>, children: Seq<FatNode>) -> bool {
    let longs = unique_names(children.map_values(|c: FatNode| c.spec_name()));
    &&& entries.len() == children.len()
    &&& forall|k: int|
        0 <= k < entries.len() ==> entry_named(
            #[trigger] entries[k],
            longs[k],
            short_names(longs)[k],
            children[k],
        )
}

/// Directory `i` of `dirs` holds `children`: one entry per child, in
/// order, of its kind and named as `entries_named` says, and each
/// subdirectory's entry leads to a later directory that holds that
/// subdirectory's children in turn.
pub open spec fn dir_holds(dirs: Seq<PlannedDir>, i: int, children: Seq<FatNode>) -> bool
    decreases children,
{
    &&& 0 <= i < dirs.len()
    &&& entries_match(dirs[i].entries@, children)
    &&& entries_named(dirs[i].entries@, children)
    &&& forall|k: int|
        0 <= k < children.len() ==> match (#[trigger] children[k], dirs[i].entries@[k].kind) {
            (FatNode::Dir { children: c, .. }, EntryKind::Dir(sub)) => i < sub && !dirs[sub as int].is_root && dir_holds(
                dirs,
                sub as int,
                c@,
            ),
            _ => true,
        }
}

/// `dir_holds` looks only at directory `i` and later ones.
pub proof fn lemma_dir_holds_keep(
    d1: Seq<PlannedDir>,
    d2: Seq<PlannedDir>,
    i: int,
    children: Seq<FatNode>,
    lo: int,
)
    requires
        dir_holds(d1, i, children),
        lo <= i,
        d1.len() <= d2.len(),
        forall|j: int| lo <= j < d1.len() ==> d2[j] == d1[j],
    ensures
        dir_holds(d2, i, children),
    decreases children,
{
    assert(d2[i] == d1[i]);
    assert forall|k: int| 0 <= k < children.len() implies match (
        #[trigger] children[k],
        d2[i].entries@[k].kind,
    ) {
        (FatNode::Dir { children: c, .. }, EntryKind::Dir(sub)) => i < sub && !d2[sub as int].is_root && dir_holds(
            d2,
            sub as int,
            c@,
        ),
        _ => true,
    } by {
        match (children[k], d1[i].entries@[k].kind) {
            (FatNode::Dir { children: c, .. }, EntryKind::Dir(sub)) => {
                lemma_dir_holds_keep(d1, d2, sub as int, c@, lo);
            },
            _ => {},
        }
    }
}

impl Plan {
    /// Creates the directory and, recursively, its subdirectories; no
    /// clusters yet.
    fn add_dir(&mut self, children: &Vec<FatNode>, parent: usize, is_root: bool) -> (r: Result<
        usize,
        String,
    >)
        requires
            geometry_ok(old(self).geometry),
            dirs_ok(old(self).dirs@, old(self).cb(), old(self).dirs.len() as int),
            old(self).dir_first.len() == old(self).dirs.len(),
            old(self).dirs.len() + 1 + dirs_in_list(children@) < usize::MAX,
            parent <= old(self).dirs.len(),
            parent < old(self).dirs.len() ==> old(self).dirs@[parent as int].entries.len() == 0,
            children.len() <= MAX_DIR_CHILDREN,
            forall|i: int| 0 <= i < children.len() ==> node_ok(#[trigger] children[i]),
        ensures
            final(self).geometry == old(self).geometry,
            final(self).label == old(self).label,
            final(self).slots@ == old(self).slots@,
            final(self).placements@ == old(self).placements@,
            final(self).chain_ends@ == old(self).chain_ends@,
            final(self).dir_first.len() == final(self).dirs.len(),
            final(self).dirs.len() >= old(self).dirs.len(),
            final(self).dirs@.take(old(self).dirs.len() as int) == old(self).dirs@,
            r is Ok <==> !any_oversized(children@),
            r matches Ok(idx) ==> {
                &&& final(self).dirs.len() == old(self).dirs.len() + 1 + dirs_in_list(children@)
                &&& idx == old(self).dirs.len()
                &&& idx < final(self).dirs.len()
                &&& dirs_ok(final(self).dirs@, final(self).cb(), idx as int)
                &&& final(self).dirs@[idx as int].parent == parent
                &&& final(self).dirs@[idx as int].is_root == is_root
                &&& entries_match(final(self).dirs@[idx as int].entries@, children@)
                &&& dir_holds(final(self).dirs@, idx as int, children@)
            },
            r matches Err(m) ==> exists|name: Seq<char>| m@ == too_large_message(name),
        decreases children,
    {
        let index = self.dirs.len();
        self.dirs.push(PlannedDir { clusters: 0, parent, is_root, entries: Vec::new() });
        self.dir_first.push(0);
        let ghost cb = self.cb();
        assert(dirs_ok(self.dirs@, cb, index + 1)) by {
            assert forall|i: int| 0 <= i < self.dirs.len() implies dir_links_ok(self.dirs@, i) by {
                if i < index {
                    assert(dir_links_ok(old(self).dirs@, i));
                    assert(self.dirs@[i] == old(self).dirs@[i]);
                }
            }
        }
        assert(children@.take(0) =~= Seq::<FatNode>::empty());
        let mut names: Vec<String> = Vec::new();
        let mut n: usize = 0;
        while n < children.len()
            invariant
                n <= children.len(),
                names.len() == n,
                forall|k: int| 0 <= k < n ==> (#[trigger] names@[k])@ == children@[k].spec_name(),
            decreases children.len() - n,
        {
            names.push(children[n].name().clone());
            n = n + 1;
        }
        assert(texts(names@) =~= children@.map_values(|c: FatNode| c.spec_name()));
        let long_names = unique_long_names(&names);
        proof {
            lemma_unique_names_len(texts(names@));
            lemma_short_names_prefix(texts(long_names@), 0);
        }
        let mut taken: Vec<[u8; 11]> = Vec::new();
        let mut entries: Vec<Entry> = Vec::new();
        assert(views(taken@) =~= shorts_taken(short_names(texts(long_names@).take(0))));
        let mut i: usize = 0;
        while i < children.len()
            invariant
                i <= children.len(),
                children.len() <= MAX_DIR_CHILDREN,
                forall|k: int| 0 <= k < children.len() ==> node_ok(#[trigger] children[k]),
                texts(long_names@) == unique_names(texts(names@)),
                names.len() == children.len(),
                long_names.len() == children.len(),
                forall|k: int| 0 <= k < children.len() ==> utf16_len(#[trigger] texts(long_names@)[k]) <= 268,
                taken.len() == i,
                entries.len() == i,
                forall|k: int| 0 <= k < i ==> !oversized(#[trigger] children[k]),
                forall|k: int| 0 <= k < i ==> match (#[trigger] entries@[k]).long {
                    Some(l) => l.len() <= 268,
                    None => true,
                },
                entries_match(entries@, children@.take(i as int)),
                forall|k: int| 0 <= k < i ==> match (#[trigger] entries@[k]).kind {
                    EntryKind::Dir(sub) => index < sub < self.dirs.len() && self.dirs@[sub as int].parent == index,
                    EntryKind::File { size, .. } => size <= MAX_FILE_SIZE,
                },
                views(taken@) == shorts_taken(short_names(texts(long_names@).take(i as int))),
                short_names(texts(long_names@)).len() == children.len(),
                forall|k: int| 0 <= k < i ==> entry_named(
                    #[trigger] entries@[k],
                    texts(long_names@)[k],
                    short_names(texts(long_names@))[k],
                    children@[k],
                ),
                forall|k: int|
                    #![trigger entries@[k]]
                    0 <= k < i ==> match (children@[k], entries@[k].kind) {
                        (FatNode::Dir { children: c, .. }, EntryKind::Dir(sub)) => index < sub
                            && !self.dirs@[sub as int].is_root && dir_holds(self.dirs@, sub as int, c@),
                        _ => true,
                    },
                self.slots@ == old(self).slots@,
                self.placements@ == old(self).placements@,
                self.chain_ends@ == old(self).chain_ends@,
                index < self.dirs.len(),
                self.dirs@[index as int].parent == parent,
                self.dirs@[index as int].is_root == is_root,
                self.dirs@[index as int].entries.len() == 0,
                self.dirs@.take(index as int) == old(self).dirs@,
                dirs_ok(self.dirs@, cb, index + 1),
                cb == self.cb(),
                geometry_ok(self.geometry),
                self.geometry == old(self).geometry,
                self.label == old(self).label,
                self.dir_first.len() == self.dirs.len(),
                self.dirs.len() == index + 1 + dirs_in_list(children@.take(i as int)),
                index + 1 + dirs_in_list(children@) < usize::MAX,
                index == old(self).dirs.len(),
                parent <= index,
            decreases children.len() - i,
        {
            proof {
                lemma_short_name_room(
                    crate::flash::fat_names::lossy_base(crate::models::ascii_uppercase(long_names@[i as int]@)),
                    crate::flash::fat_names::lossy_ext(crate::models::ascii_uppercase(long_names@[i as int]@)),
                    views(taken@),
                );
            }
            let ghost taken_before = views(taken@);
            let (short, needs_long) = short_name(long_names[i].as_str(), &mut taken);
            assert(views(taken@).len() == taken.len());
            proof {
                let l = texts(long_names@);
                lemma_short_names_prefix(l, i + 1);
                assert(l.take(i + 1).drop_last() =~= l.take(i as int));
                assert(l.take(i + 1).last() == long_names@[i as int]@);
                assert(short_names(l)[i as int] == short_names(l.take(i + 1))[i as int]);
                assert(short_names(l)[i as int] == (short@, needs_long));
                assert(views(taken@) =~= shorts_taken(short_names(l.take(i + 1))));
            }
            let long = if needs_long {
                let units = encode_utf16(long_names[i].as_str());
                proof {
                    lemma_utf16_units_len(long_names@[i as int]@);
                    assert(texts(long_names@)[i as int] == long_names@[i as int]@);
                }
                Some(units)
            } else {
                None
            };
            let child = &children[i];
            let entry = match child {
                FatNode::Dir { date, children: grandchildren, .. } => {
                    assert(node_ok(children[i as int]));
                    proof {
                        lemma_dirs_in_prefix(children@, i as int);
                    }
                    let ghost prev = self.dirs@;
                    let sub = match self.add_dir(grandchildren, index, false) {
                        Ok(sub) => sub,
                        Err(m) => {
                            proof {
                                assert(oversized(children[i as int]));
                            }
                            return Err(m);
                        },
                    };
                    proof {
                        assert forall|j: int| index + 1 <= j < self.dirs.len() implies dir_size_ok(
                            #[trigger] self.dirs@[j],
                            cb,
                        ) by {
                            if j < sub {
                                assert(self.dirs@.take(prev.len() as int)[j] == prev[j]);
                            }
                        }
                        assert(self.dirs@[index as int] == prev[index as int]) by {
                            assert(self.dirs@.take(prev.len() as int)[index as int] == prev[index as int]);
                        }
                        assert forall|k: int| 0 <= k < i implies match (#[trigger] entries@[k]).kind {
                            EntryKind::Dir(s2) => index < s2 < self.dirs.len() && self.dirs@[s2 as int].parent == index,
                            EntryKind::File { size, .. } => size <= MAX_FILE_SIZE,
                        } by {
                            match entries@[k].kind {
                                EntryKind::Dir(s2) => {
                                    assert(self.dirs@.take(prev.len() as int)[s2 as int] == prev[s2 as int]);
                                },
                                EntryKind::File { .. } => {},
                            }
                        }
                        assert(self.dirs@.take(index as int) =~= prev.take(index as int)) by {
                            assert forall|j: int| 0 <= j < index implies self.dirs@[j] == prev[j] by {
                                assert(self.dirs@.take(prev.len() as int)[j] == prev[j]);
                            }
                        }
                        assert forall|k: int|
                            #![trigger entries@[k]]
                            0 <= k < i implies match (children@[k], entries@[k].kind) {
                                (FatNode::Dir { children: c, .. }, EntryKind::Dir(s2)) => index < s2
                                    && !self.dirs@[s2 as int].is_root && dir_holds(self.dirs@, s2 as int, c@),
                                _ => true,
                            } by {
                            match (children@[k], entries@[k].kind) {
                                (FatNode::Dir { children: c, .. }, EntryKind::Dir(s2)) => {
                                    assert forall|j: int| s2 <= j < prev.len() implies self.dirs@[j]
                                        == prev[j] by {
                                        assert(self.dirs@.take(prev.len() as int)[j] == prev[j]);
                                    }
                                    lemma_dir_holds_keep(prev, self.dirs@, s2 as int, c@, s2 as int);
                                },
                                _ => {},
                            }
                        }
                    }
                    Entry { short, long, date: *date, kind: EntryKind::Dir(sub) }
                },
                FatNode::File { name, date, size, id } => {
                    if *size > MAX_FILE_SIZE {
                        let mut m = name.clone();
                        m.append(" is larger than FAT32's 4 GB file limit");
                        proof {
                            assert(oversized(children[i as int]));
                            assert(m@ == too_large_message(name@));
                        }
                        return Err(m);
                    }
                    Entry { short, long, date: *date, kind: EntryKind::File { id: *id, size: *size } }
                },
            };
            entries.push(entry);
            proof {
                lemma_dirs_in_prefix(children@, i as int);
            }
            assert(children@.take(i + 1).drop_last() =~= children@.take(i as int));
            i = i + 1;
        }
        assert(children@.take(children.len() as int) =~= children@);
        proof {
            lemma_entries_slots(entries@);
        }
        let mut count: u64 = if is_root {
            1
        } else {
            2
        };
        let mut e: usize = 0;
        while e < entries.len()
            invariant
                e <= entries.len(),
                entries.len() <= MAX_DIR_CHILDREN,
                forall|k: int| 0 <= k < entries.len() ==> match (#[trigger] entries@[k]).long {
                    Some(l) => l.len() <= 268,
                    None => true,
                },
                count == entries_slots(entries@.take(e as int)) + if is_root { 1int } else { 2int },
                count <= 2 + 22 * e,
            decreases entries.len() - e,
        {
            assert(entries@.take(e + 1).drop_last() =~= entries@.take(e as int));
            let parts: u64 = match &entries[e].long {
                Some(l) => ((l.len() + 12) / 13) as u64,
                None => 0,
            };
            count = count + 1 + parts;
            e = e + 1;
        }
        assert(entries@.take(entries.len() as int) =~= entries@);
        let cb_exec = self.geometry.cluster_bytes() as u128;
        let x: u128 = count as u128 * 32;
        let c: u128 = (x + cb_exec - 1) / cb_exec;
        let clusters: u128 = if c < 1 {
            1
        } else {
            c
        };
        proof {
            vstd::arithmetic::div_mod::lemma_fundamental_div_mod((x + cb_exec - 1) as int, cb_exec as int);
            assert(c * cb_exec >= x) by (nonlinear_arith)
                requires
                    x + cb_exec - 1 == cb_exec * c + (x + cb_exec - 1) % (cb_exec as int),
                    0 <= (x + cb_exec - 1) % (cb_exec as int) < cb_exec,
            ;
            assert(c <= x / 512 + 1) by (nonlinear_arith)
                requires
                    x + cb_exec - 1 == cb_exec * c + (x + cb_exec - 1) % (cb_exec as int),
                    0 <= (x + cb_exec - 1) % (cb_exec as int),
                    cb_exec >= 512,
                    x >= 32,
            ;
            assert(clusters * cb_exec >= x) by (nonlinear_arith)
                requires
                    clusters >= c,
                    c * cb_exec >= x,
                    cb_exec > 0,
            ;
        }
        let ghost before = self.dirs@;
        self.dirs.set(index, PlannedDir { clusters: clusters as u32, parent, is_root, entries });
        proof {
            let d = self.dirs@[index as int];
            assert(d.entries@ == entries@);
            assert(dir_slots(d) == count);
            assert(dir_size_ok(d, cb));
            assert forall|j: int| 0 <= j < self.dirs.len() implies dir_links_ok(self.dirs@, j) by {
                if j != index {
                    assert(dir_links_ok(before, j));
                    assert(self.dirs@[j] == before[j]);
                    assert forall|k: int| 0 <= k < self.dirs@[j].entries.len() implies match #[trigger] self.dirs@[j].entries@[k].kind {
                        EntryKind::Dir(sub) => j < sub < self.dirs.len() && self.dirs@[sub as int].parent == j,
                        EntryKind::File { size, .. } => size <= MAX_FILE_SIZE,
                    } by {
                        match self.dirs@[j].entries@[k].kind {
                            EntryKind::Dir(sub) => {
                                assert(before[j].entries@[k].kind == EntryKind::Dir(sub));
                                assert(j < sub < before.len() && before[sub as int].parent == j);
                                if sub == index {
                                    assert(before[index as int].parent == parent);
                                }
                            },
                            EntryKind::File { .. } => {},
                        }
                    }
                } else {
                    assert forall|k: int| 0 <= k < d.entries.len() implies match #[trigger] d.entries@[k].kind {
                        EntryKind::Dir(sub) => index < sub < self.dirs.len() && self.dirs@[sub as int].parent == index,
                        EntryKind::File { size, .. } => size <= MAX_FILE_SIZE,
                    } by {
                        match d.entries@[k].kind {
                            EntryKind::Dir(sub) => {
                                assert(before[sub as int].parent == index);
                            },
                            EntryKind::File { .. } => {},
                        }
                    }
                }
            }
            assert(self.dirs@.take(index as int) =~= before.take(index as int));
            assert forall|j: int| index <= j < self.dirs.len() implies dir_size_ok(#[trigger] self.dirs@[j], cb) by {
                if j != index {
                    assert(self.dirs@[j] == before[j]);
                }
            }
            assert(!any_oversized(children@)) by {
                if any_oversized(children@) {
                    let k = choose|k: int| 0 <= k < children.len() && oversized(#[trigger] children@[k]);
                    assert(!oversized(children[k]));
                }
            }
            assert(entries_named(d.entries@, children@));
            assert forall|k: int| 0 <= k < children.len() implies match (
                #[trigger] children@[k],
                d.entries@[k].kind,
            ) {
                (FatNode::Dir { children: c, .. }, EntryKind::Dir(sub)) => index < sub && !self.dirs@[sub as int].is_root && dir_holds(
                    self.dirs@,
                    sub as int,
                    c@,
                ),
                _ => true,
            } by {
                assert(entries@[k] == d.entries@[k]);
                match (children@[k], entries@[k].kind) {
                    (FatNode::Dir { children: c, .. }, EntryKind::Dir(sub)) => {
                        assert forall|j: int| sub <= j < before.len() implies self.dirs@[j]
                            == before[j] by {}
                        lemma_dir_holds_keep(before, self.dirs@, sub as int, c@, sub as int);
                    },
                    _ => {},
                }
            }
            assert(dir_holds(self.dirs@, index as int, children@));
        }
        Ok(index)
    }
}


/// The allocation of two plans agrees on their first `k` slots.
pub proof fn lemma_same_prefix(p1: Plan, p2: Plan, k: int)
    requires
        0 <= k <= p1.slots.len(),
        k <= p2.slots.len(),
        p1.slots@.take(k) == p2.slots@.take(k),
        p1.dirs@ == p2.dirs@,
        p1.geometry == p2.geometry,
    ensures
        p1.clusters_before(k) == p2.clusters_before(k),
        p1.placements_upto(k) == p2.placements_upto(k),
        p1.chain_ends_upto(k) == p2.chain_ends_upto(k),
    decreases k,
{
    if k > 0 {
        assert(p1.slots@.take(k - 1) =~= p1.slots@.take(k).take(k - 1));
        assert(p2.slots@.take(k - 1) =~= p2.slots@.take(k).take(k - 1));
        assert(p1.slots@[k - 1] == p1.slots@.take(k)[k - 1]);
        assert(p2.slots@[k - 1] == p2.slots@.take(k)[k - 1]);
        lemma_same_prefix(p1, p2, k - 1);
    }
}

pub proof fn lemma_file_clusters_bound(size: int, cb: int)
    requires
        0 <= size,
        cb >= 1,
    ensures
        0 <= file_clusters(size, cb) <= size,
        file_clusters(size, cb) * cb >= size,
        size > 0 ==> file_clusters(size, cb) >= 1,
{
    vstd::arithmetic::div_mod::lemma_fundamental_div_mod(size + cb - 1, cb);
    let q = file_clusters(size, cb);
    let r = (size + cb - 1) % cb;
    assert(0 <= q <= size && q * cb >= size && (size > 0 ==> q >= 1)) by (nonlinear_arith)
        requires
            size + cb - 1 == cb * q + r,
            0 <= r < cb,
            cb >= 1,
            size >= 0,
    ;
}

pub proof fn lemma_clusters_before_mono(p: Plan, j: int, k: int)
    requires
        cluster_size(p.geometry) > 0,
        0 <= j <= k <= p.slots.len(),
    ensures
        0 <= p.clusters_before(j) <= p.clusters_before(k),
    decreases k,
{
    if k > j {
        lemma_clusters_before_mono(p, j, k - 1);
        match p.slots@[k - 1] {
            Slot::File { size, .. } => lemma_file_clusters_bound(size as int, p.cb()),
            Slot::Dir(_) => {},
        }
    } else if k > 0 {
        lemma_clusters_before_mono(p, 0, k - 1);
        match p.slots@[k - 1] {
            Slot::File { size, .. } => lemma_file_clusters_bound(size as int, p.cb()),
            Slot::Dir(_) => {},
        }
    }
}

/// The message when the files need more clusters than the volume has.
pub open spec fn no_room_message() -> Seq<char> {
    "the files don't fit onto the drive"@
}

impl Plan {
    /// The allocation so far matches the slots, and `next` is the first
    /// free cluster.
    pub open spec fn alloc_inv(&self, next: u32) -> bool {
        &&& self.allocation_ok()
        &&& next == 2 + self.clusters_before(self.slots.len() as int)
    }

    /// Gives `slot` the next clusters (a file without contents gets none,
    /// and cluster number 0).
    fn push_slot(&mut self, slot: Slot, next: &mut u32) -> (r: Result<u32, String>)
        requires
            old(self).alloc_inv(*old(next)),
            match slot {
                Slot::Dir(i) => i < old(self).dirs.len(),
                Slot::File { size, .. } => size <= MAX_FILE_SIZE,
            },
        ensures
            final(self).dirs == old(self).dirs,
            final(self).dir_first == old(self).dir_first,
            final(self).geometry == old(self).geometry,
            final(self).label == old(self).label,
            r is Ok <==> old(self).clusters_before(old(self).slots.len() as int)
                + old(self).slot_clusters(slot) <= old(self).geometry.clusters,
            r matches Ok(first) ==> {
                &&& final(self).slots@ == old(self).slots@.push(slot)
                &&& final(self).alloc_inv(*final(next))
                &&& (old(self).slot_clusters(slot) > 0 ==> first == *old(next))
                &&& *final(next) == *old(next) + old(self).slot_clusters(slot)
            },
            r matches Err(m) ==> m@ == no_room_message() && final(self).slots@ == old(self).slots@
                && final(self).alloc_inv(*final(next)),
    {
        let ghost old_self = *self;
        let cb = self.geometry.cluster_bytes();
        let clusters: u64 = match slot {
            Slot::Dir(i) => self.dirs[i].clusters as u64,
            Slot::File { size, .. } => {
                let c: u128 = (size as u128 + cb as u128 - 1) / cb as u128;
                proof {
                    lemma_file_clusters_bound(size as int, cb as int);
                }
                c as u64
            },
        };
        assert(clusters == old_self.slot_clusters(slot));
        let first = *next;
        let end = first as u64 + clusters;
        if end > 2 + self.geometry.clusters as u64 {
            return Err(String::from_str("the files don't fit onto the drive"));
        }
        *next = end as u32;
        let ghost k = self.slots.len() as int;
        if clusters > 0 {
            self.chain_ends.push((end - 1) as u32);
        }
        let placed = match slot {
            Slot::File { id, size } => {
                if size > 0 {
                    proof {
                        lemma_clusters_before_mono(old_self, 0, k);
                        let g = self.geometry;
                        assert((first - 2) * cb <= g.clusters * cb) by (nonlinear_arith)
                            requires
                                0 <= first - 2 <= g.clusters,
                                cb > 0,
                        ;
                    }
                    let offset = self.geometry.data_offset() + (first as u64 - 2) * cb;
                    Some(Placement { id, offset, size })
                } else {
                    None
                }
            },
            Slot::Dir(_) => None,
        };
        match placed {
            Some(p) => self.placements.push(p),
            None => {},
        }
        self.slots.push(slot);
        proof {
            assert(self.slots@.take(k) =~= old_self.slots@.take(k));
            lemma_same_prefix(*self, old_self, k);
            assert(self.slots@[k] == slot);
            assert forall|j: int| 0 <= j < self.slots.len() implies match #[trigger] self.slots@[j] {
                Slot::Dir(i) => i < self.dirs.len(),
                Slot::File { size, .. } => size <= MAX_FILE_SIZE,
            } by {
                if j < k {
                    assert(self.slots@[j] == old_self.slots@[j]);
                }
            }
        }
        let result = if clusters > 0 {
            first
        } else {
            match slot {
                Slot::Dir(_) => first,
                Slot::File { .. } => 0,
            }
        };
        Ok(result)
    }
}


/// Clusters the files among `es` take.
pub open spec fn files_need(es: Seq<Entry>, cb: int) -> int
    decreases es.len(),
{
    if es.len() == 0 {
        0
    } else {
        files_need(es.drop_last(), cb) + match es.last().kind {
            EntryKind::File { size, .. } => file_clusters(size as int, cb),
            EntryKind::Dir(_) => 0,
        }
    }
}

/// Clusters directory `i` of `dirs` takes with everything in it: its own,
/// its files' and, recursively, its subdirectories'.
pub open spec fn dir_need(dirs: Seq<PlannedDir>, i: int, cb: int) -> int
    decreases dirs.len() - i, 1int, 0int,
{
    if 0 <= i < dirs.len() {
        dirs[i].clusters + files_need(dirs[i].entries@, cb) + subs_need(
            dirs,
            i,
            dirs[i].entries.len() as int,
            cb,
        )
    } else {
        0
    }
}

/// Clusters the subdirectories among the first `k` entries of directory
/// `i` take with everything in them.
pub open spec fn subs_need(dirs: Seq<PlannedDir>, i: int, k: int, cb: int) -> int
    decreases dirs.len() - i, 0int, k,
{
    if k <= 0 || !(0 <= i < dirs.len()) || k > dirs[i].entries.len() {
        0
    } else {
        subs_need(dirs, i, k - 1, cb) + match dirs[i].entries@[k - 1].kind {
            EntryKind::Dir(sub) => if i < sub < dirs.len() {
                dir_need(dirs, sub as int, cb)
            } else {
                0
            },
            EntryKind::File { .. } => 0,
        }
    }
}

pub proof fn lemma_files_need(es: Seq<Entry>, cb: int, k: int)
    requires
        cb > 0,
        0 <= k <= es.len(),
    ensures
        0 <= files_need(es.take(k), cb) <= files_need(es, cb),
    decreases es.len(),
{
    if es.len() > 0 {
        if k < es.len() {
            assert(es.drop_last().take(k) =~= es.take(k));
            lemma_files_need(es.drop_last(), cb, k);
        } else {
            assert(es.take(k) =~= es);
            lemma_files_need(es.drop_last(), cb, 0);
        }
        match es.last().kind {
            EntryKind::File { size, .. } => {
                assert(file_clusters(size as int, cb) >= 0) by (nonlinear_arith)
                    requires
                        cb > 0,
                        size >= 0,
                ;
            },
            EntryKind::Dir(_) => {},
        }
    } else {
        assert(es.take(k) =~= es);
    }
}

proof fn lemma_subs_mono(dirs: Seq<PlannedDir>, i: int, k: int, n: int, cb: int)
    requires
        cb > 0,
        0 <= i < dirs.len(),
        0 <= k <= n <= dirs[i].entries.len(),
    ensures
        subs_need(dirs, i, k, cb) <= subs_need(dirs, i, n, cb),
    decreases n - k,
{
    if k < n {
        lemma_subs_mono(dirs, i, k, n - 1, cb);
        match dirs[i].entries@[n - 1].kind {
            EntryKind::Dir(sub) => if i < sub < dirs.len() {
                lemma_dir_need_nonneg(dirs, sub as int, cb);
            },
            EntryKind::File { .. } => {},
        }
    }
}

proof fn lemma_subs_nonneg(dirs: Seq<PlannedDir>, i: int, k: int, cb: int)
    requires
        cb > 0,
        0 <= i < dirs.len(),
    ensures
        0 <= subs_need(dirs, i, k, cb),
    decreases dirs.len() - i, 0int, k,
{
    if k > 0 && k <= dirs[i].entries.len() {
        lemma_subs_nonneg(dirs, i, k - 1, cb);
        match dirs[i].entries@[k - 1].kind {
            EntryKind::Dir(sub) => if i < sub < dirs.len() {
                lemma_dir_need_nonneg(dirs, sub as int, cb);
            },
            EntryKind::File { .. } => {},
        }
    }
}

proof fn lemma_dir_need_nonneg(dirs: Seq<PlannedDir>, i: int, cb: int)
    requires
        cb > 0,
    ensures
        dir_need(dirs, i, cb) >= 0,
    decreases dirs.len() - i, 1int, 0int,
{
    if 0 <= i < dirs.len() {
        lemma_files_need(dirs[i].entries@, cb, 0);
        lemma_subs_nonneg(dirs, i, dirs[i].entries.len() as int, cb);
    }
}

/// Directory entries the first `k` names take: one 8.3 entry each, and one
/// per 13 UTF-16 units of a long name where one is kept.
pub open spec fn name_slots_upto(longs: Seq<Seq<char>>, shorts: Seq<(Seq<u8>, bool)>, k: int) -> int
    decreases k,
{
    if k <= 0 {
        0
    } else {
        name_slots_upto(longs, shorts, k - 1) + 1 + if shorts[k - 1].1 {
            (utf16_len(longs[k - 1]) as int + 12) / 13
        } else {
            0int
        }
    }
}

/// Directory entries the names of `children` take.
pub open spec fn names_slots(children: Seq<FatNode>) -> int {
    let longs = unique_names(children.map_values(|c: FatNode| c.spec_name()));
    name_slots_upto(longs, short_names(longs), children.len() as int)
}

/// Clusters the files among `children` take.
pub open spec fn tree_files(children: Seq<FatNode>, cb: int) -> int
    decreases children.len(),
{
    if children.len() == 0 {
        0
    } else {
        tree_files(children.drop_last(), cb) + match children.last() {
            FatNode::File { size, .. } => file_clusters(size as int, cb),
            FatNode::Dir { .. } => 0,
        }
    }
}

/// Clusters a directory holding `children` takes on a volume of `cb`-byte
/// clusters, with everything in it.
pub open spec fn tree_need(children: Seq<FatNode>, is_root: bool, cb: int) -> int
    decreases children, 1int,
{
    dir_clusters(names_slots(children) + if is_root {
        1int
    } else {
        2int
    }, cb) + tree_files(children, cb) + tree_subs(children, cb)
}

/// Clusters the subdirectories among `children` take, with everything in
/// them.
pub open spec fn tree_subs(children: Seq<FatNode>, cb: int) -> int
    decreases children, 0int,
{
    if children.len() == 0 {
        0
    } else {
        tree_subs(children.drop_last(), cb) + match children.last() {
            FatNode::Dir { children: c, .. } => tree_need(c@, false, cb),
            FatNode::File { .. } => 0,
        }
    }
}

proof fn lemma_entries_slots_named(es: Seq<Entry>, children: Seq<FatNode>, k: int)
    requires
        entries_named(es, children),
        0 <= k <= es.len(),
    ensures
        entries_slots(es.take(k)) == name_slots_upto(
            unique_names(children.map_values(|c: FatNode| c.spec_name())),
            short_names(unique_names(children.map_values(|c: FatNode| c.spec_name()))),
            k,
        ),
    decreases k,
{
    let longs = unique_names(children.map_values(|c: FatNode| c.spec_name()));
    if k > 0 {
        lemma_entries_slots_named(es, children, k - 1);
        assert(es.take(k).drop_last() =~= es.take(k - 1));
        assert(entry_named(es[k - 1], longs[k - 1], short_names(longs)[k - 1], children[k - 1]));
        match es[k - 1].long {
            Some(u) => {
                lemma_utf16_units_len(longs[k - 1]);
            },
            None => {},
        }
    } else {
        assert(es.take(k) =~= Seq::<Entry>::empty());
    }
}

proof fn lemma_files_need_tree(es: Seq<Entry>, children: Seq<FatNode>, cb: int, k: int)
    requires
        entries_match(es, children),
        0 <= k <= es.len(),
    ensures
        files_need(es.take(k), cb) == tree_files(children.take(k), cb),
    decreases k,
{
    if k > 0 {
        lemma_files_need_tree(es, children, cb, k - 1);
        assert(es.take(k).drop_last() =~= es.take(k - 1));
        assert(children.take(k).drop_last() =~= children.take(k - 1));
        assert(match (children[k - 1], es[k - 1].kind) {
            (FatNode::File { id, size, .. }, EntryKind::File { id: id2, size: size2 }) => id == id2
                && size == size2,
            (FatNode::Dir { .. }, EntryKind::Dir(_)) => true,
            _ => false,
        });
    } else {
        assert(es.take(k) =~= Seq::<Entry>::empty());
        assert(children.take(k) =~= Seq::<FatNode>::empty());
    }
}

/// What the planned directories need is what the tree needs.
proof fn lemma_dir_need_tree(dirs: Seq<PlannedDir>, i: int, children: Seq<FatNode>, cb: int)
    requires
        dir_holds(dirs, i, children),
        forall|j: int| 0 <= j < dirs.len() ==> dir_size_ok(#[trigger] dirs[j], cb),
    ensures
        dir_need(dirs, i, cb) == tree_need(children, dirs[i].is_root, cb),
    decreases children, 1int,
{
    let es = dirs[i].entries@;
    assert(dir_size_ok(dirs[i], cb));
    lemma_entries_slots_named(es, children, es.len() as int);
    assert(es.take(es.len() as int) =~= es);
    lemma_files_need_tree(es, children, cb, es.len() as int);
    assert(children.take(children.len() as int) =~= children);
    lemma_subs_need_tree(dirs, i, children, cb, children.len() as int);
}

proof fn lemma_subs_need_tree(dirs: Seq<PlannedDir>, i: int, children: Seq<FatNode>, cb: int, k: int)
    requires
        dir_holds(dirs, i, children),
        forall|j: int| 0 <= j < dirs.len() ==> dir_size_ok(#[trigger] dirs[j], cb),
        0 <= k <= children.len(),
    ensures
        subs_need(dirs, i, k, cb) == tree_subs(children.take(k), cb),
    decreases children, 0int, k,
{
    if k > 0 {
        lemma_subs_need_tree(dirs, i, children, cb, k - 1);
        assert(children.take(k).drop_last() =~= children.take(k - 1));
        assert(children.take(k).last() == children[k - 1]);
        let es = dirs[i].entries@;
        assert(match (children[k - 1], es[k - 1].kind) {
            (FatNode::File { id, size, .. }, EntryKind::File { id: id2, size: size2 }) => id == id2
                && size == size2,
            (FatNode::Dir { .. }, EntryKind::Dir(_)) => true,
            _ => false,
        });
        match (children[k - 1], es[k - 1].kind) {
            (FatNode::Dir { children: c, .. }, EntryKind::Dir(sub)) => {
                assert(dir_holds(dirs, sub as int, c@));
                lemma_dir_need_tree(dirs, sub as int, c@, cb);
            },
            _ => {},
        }
    } else {
        assert(children.take(k) =~= Seq::<FatNode>::empty());
    }
}

impl Plan {
    /// Allocates the directory's own clusters, then its files, then its
    /// subdirectories, depth-first: the order they're written in.
    fn allocate_dir(&mut self, index: usize, next: &mut u32) -> (r: Result<(), String>)
        requires
            old(self).alloc_inv(*old(next)),
            index < old(self).dirs.len(),
            forall|i: int| 0 <= i < old(self).dirs.len() ==> dir_links_ok(old(self).dirs@, i),
        ensures
            final(self).dirs == old(self).dirs,
            final(self).geometry == old(self).geometry,
            final(self).label == old(self).label,
            final(self).dir_first.len() == old(self).dir_first.len(),
            final(self).alloc_inv(*final(next)),
            r is Ok <==> *old(next) - 2 + dir_need(old(self).dirs@, index as int, old(self).cb())
                <= old(self).geometry.clusters,
            r is Ok ==> *final(next) == *old(next) + dir_need(
                old(self).dirs@,
                index as int,
                old(self).cb(),
            ),
            r matches Err(m) ==> m@ == no_room_message(),
        decreases old(self).dirs.len() - index,
    {
        let ghost dirs = self.dirs@;
        let ghost cb = self.cb();
        let ghost n0 = *next as int;
        let ghost es = self.dirs@[index as int].entries@;
        proof {
            lemma_files_need(es, cb, 0);
            lemma_subs_nonneg(dirs, index as int, es.len() as int, cb);
            assert(es.take(0) =~= Seq::<Entry>::empty());
        }
        let first = match self.push_slot(Slot::Dir(index), next) {
            Ok(first) => first,
            Err(m) => return Err(m),
        };
        let ghost before_set = *self;
        self.dir_first.set(index, first);
        proof {
            lemma_same_prefix(*self, before_set, self.slots.len() as int);
        }
        let n = self.dirs[index].entries.len();
        let mut failed: Option<String> = None;
        let mut e: usize = 0;
        while e < n && failed.is_none()
            invariant
                e <= n,
                index < self.dirs.len(),
                n == self.dirs@[index as int].entries.len(),
                self.dirs == old(self).dirs,
                self.geometry == old(self).geometry,
                self.label == old(self).label,
                self.dir_first.len() == old(self).dir_first.len(),
                self.alloc_inv(*next),
                forall|i: int| 0 <= i < self.dirs.len() ==> dir_links_ok(self.dirs@, i),
                failed matches Some(m) ==> m@ == no_room_message(),
                dirs == self.dirs@,
                cb == self.cb(),
                cb > 0,
                es == dirs[index as int].entries@,
                failed is None ==> *next == n0 + dirs[index as int].clusters + files_need(
                    es.take(e as int),
                    cb,
                ),
                failed is Some ==> n0 - 2 + dir_need(dirs, index as int, cb) > self.geometry.clusters,
                dir_need(dirs, index as int, cb) == dirs[index as int].clusters + files_need(es, cb)
                    + subs_need(dirs, index as int, n as int, cb),
                0 <= subs_need(dirs, index as int, n as int, cb),
            decreases n - e,
        {
            let kind = self.dirs[index].entries[e].kind;
            proof {
                assert(es.take(e + 1).drop_last() =~= es.take(e as int));
                lemma_files_need(es, cb, e + 1);
            }
            match kind {
                EntryKind::File { id, size } => {
                    assert(dir_links_ok(self.dirs@, index as int));
                    assert(self.dirs@[index as int].entries@[e as int].kind == kind);
                    match self.push_slot(Slot::File { id, size }, next) {
                        Ok(_) => {},
                        Err(m) => {
                            failed = Some(m);
                        },
                    }
                },
                EntryKind::Dir(_) => {},
            }
            e = e + 1;
        }
        if let Some(m) = failed {
            return Err(m);
        }
        assert(es.take(n as int) =~= es);
        let mut e: usize = 0;
        while e < n && failed.is_none()
            invariant
                e <= n,
                index < self.dirs.len(),
                n == self.dirs@[index as int].entries.len(),
                self.dirs == old(self).dirs,
                self.geometry == old(self).geometry,
                self.label == old(self).label,
                self.dir_first.len() == old(self).dir_first.len(),
                self.alloc_inv(*next),
                forall|i: int| 0 <= i < self.dirs.len() ==> dir_links_ok(self.dirs@, i),
                failed matches Some(m) ==> m@ == no_room_message(),
                dirs == self.dirs@,
                cb == self.cb(),
                cb > 0,
                es == dirs[index as int].entries@,
                failed is None ==> *next == n0 + dirs[index as int].clusters + files_need(es, cb)
                    + subs_need(dirs, index as int, e as int, cb),
                failed is Some ==> n0 - 2 + dir_need(dirs, index as int, cb) > self.geometry.clusters,
                dir_need(dirs, index as int, cb) == dirs[index as int].clusters + files_need(es, cb)
                    + subs_need(dirs, index as int, n as int, cb),
            decreases n - e,
        {
            let kind = self.dirs[index].entries[e].kind;
            proof {
                lemma_subs_mono(dirs, index as int, e + 1, n as int, cb);
            }
            match kind {
                EntryKind::Dir(sub) => {
                    assert(dir_links_ok(self.dirs@, index as int));
                    assert(self.dirs@[index as int].entries@[e as int].kind == kind);
                    assert(index < sub);
                    match self.allocate_dir(sub, next) {
                        Ok(()) => {},
                        Err(m) => {
                            failed = Some(m);
                        },
                    }
                },
                EntryKind::File { .. } => {},
            }
            e = e + 1;
        }
        if let Some(m) = failed {
            return Err(m);
        }
        Ok(())
    }

    /// Plans the volume: names and directories first, then clusters for
    /// every directory and file in the order they are written.
    pub fn new(geometry: Geometry, label: &str, root: &Vec<FatNode>) -> (r: Result<Plan, String>)
        requires
            geometry_ok(geometry),
            root.len() <= MAX_DIR_CHILDREN,
            forall|i: int| 0 <= i < root.len() ==> node_ok(#[trigger] root[i]),
            1 + dirs_in_list(root@) < usize::MAX,
        ensures
            any_oversized(root@) ==> r is Err,
            !any_oversized(root@) ==> (r is Ok <==> tree_need(root@, true, cluster_size(geometry))
                <= geometry.clusters),
            r matches Ok(p) ==> {
                &&& p.wf()
                &&& p.geometry == geometry
                &&& p.label@ == volume_label_bytes(label@)
                &&& p.dirs.len() > 0
                &&& p.dirs@[0].is_root
                &&& entries_match(p.dirs@[0].entries@, root@)
                &&& dir_holds(p.dirs@, 0, root@)
            },
            r matches Err(m) ==> (any_oversized(root@) && exists|name: Seq<char>|
                m@ == too_large_message(name)) || (!any_oversized(root@) && m@ == no_room_message()),
    {
        let mut plan = Plan {
            geometry,
            label: volume_label(label),
            dirs: Vec::new(),
            dir_first: Vec::new(),
            slots: Vec::new(),
            chain_ends: Vec::new(),
            used_clusters: 0,
            placements: Vec::new(),
        };
        assert(plan.placements@ =~= plan.placements_upto(0));
        assert(plan.chain_ends@ =~= plan.chain_ends_upto(0));
        let root_dir = match plan.add_dir(root, 0, true) {
            Ok(i) => i,
            Err(m) => return Err(m),
        };
        let mut next: u32 = 2;
        proof {
            lemma_dir_need_tree(plan.dirs@, 0, root@, plan.cb());
        }
        assert(plan.slots@.len() == 0);
        assert(plan.placements@ =~= plan.placements_upto(0));
        assert(plan.chain_ends@ =~= plan.chain_ends_upto(0));
        match plan.allocate_dir(root_dir, &mut next) {
            Ok(()) => {},
            Err(m) => return Err(m),
        }
        proof {
            lemma_clusters_before_mono(plan, 0, plan.slots.len() as int);
        }
        let ghost before = plan;
        plan.used_clusters = next - 2;
        proof {
            assert(plan.slots@.take(plan.slots.len() as int) =~= before.slots@.take(before.slots.len() as int));
            lemma_same_prefix(plan, before, plan.slots.len() as int);
        }
        Ok(plan)
    }

    /// Bytes of file data (without directories and padding).
    pub fn content_bytes(&self) -> (r: u64)
        requires
            self.wf(),
        ensures
            r == placements_total(self.placements@),
    {
        let mut total: u64 = 0;
        let mut i: usize = 0;
        while i < self.placements.len()
            invariant
                i <= self.placements.len(),
                total == placements_total(self.placements@.take(i as int)),
                total <= i * MAX_FILE_SIZE,
                self.wf(),
            decreases self.placements.len() - i,
        {
            assert(self.placements@.take(i + 1).drop_last() =~= self.placements@.take(i as int));
            proof {
                lemma_placement_sizes(*self, self.slots.len() as int);
                assert(self.placements@[i as int].size <= MAX_FILE_SIZE);
                assert(i * MAX_FILE_SIZE + MAX_FILE_SIZE <= u64::MAX) by (nonlinear_arith)
                    requires
                        i < self.placements.len(),
                        self.placements.len() <= u32::MAX,
                ;
            }
            total = total + self.placements[i].size;
            i = i + 1;
        }
        assert(self.placements@.take(self.placements.len() as int) =~= self.placements@);
        total
    }
}

/// The message for a file whose contents came back with the wrong length.
pub open spec fn length_error_text(id: usize, size: u64, got: nat) -> Seq<char> {
    "file "@ + decimal(id as nat) + ": expected "@ + decimal(size as nat) + " bytes, got "@ + decimal(got)
}

impl Plan {
    /// Writing stopped at slot `j`, a file whose contents came back `got`
    /// bytes long instead of its size, with message `m`; every slot before
    /// it was written.
    pub open spec fn write_failed_at<F: Fn(usize, u64) -> Vec<u8>>(
        &self,
        out: Seq<u8>,
        start: int,
        copy: F,
        j: int,
        got: nat,
        m: Seq<char>,
    ) -> bool {
        &&& 0 <= j < self.slots.len()
        &&& self.slots@[j] matches Slot::File { id, size }
        &&& exists|v: Vec<u8>| call_ensures(copy, (id, size), v) && v@.len() == got
        &&& got != size
        &&& m == length_error_text(id, size, got)
        &&& forall|i: int| 0 <= i < j ==> self.slot_written(out, start, i, copy)
    }

    /// Writing stopped at the first file whose contents came back with the
    /// wrong length, with message `m`.
    pub open spec fn write_failed<F: Fn(usize, u64) -> Vec<u8>>(
        &self,
        out: Seq<u8>,
        start: int,
        copy: F,
        m: Seq<char>,
    ) -> bool {
        exists|j: int, got: nat| #[trigger] self.write_failed_at(out, start, copy, j, got, m)
    }
}

/// Sum of the placed files' sizes.
pub open spec fn placements_total(ps: Seq<Placement>) -> int
    decreases ps.len(),
{
    if ps.len() == 0 {
        0
    } else {
        placements_total(ps.drop_last()) + ps.last().size
    }
}

pub proof fn lemma_placement_sizes(p: Plan, k: int)
    requires
        p.allocation_ok(),
        0 <= k <= p.slots.len(),
    ensures
        p.placements_upto(k).len() <= p.clusters_before(k),
        forall|j: int| 0 <= j < p.placements_upto(k).len() ==> (#[trigger] p.placements_upto(k)[j]).size <= MAX_FILE_SIZE,
    decreases k,
{
    if k > 0 {
        lemma_placement_sizes(p, k - 1);
        match p.slots@[k - 1] {
            Slot::File { size, .. } => {
                lemma_file_clusters_bound(size as int, p.cb());
            },
            Slot::Dir(_) => {},
        }
        assert(p.placements_upto(k).len() <= p.clusters_before(k));
        lemma_clusters_before_mono(p, k, p.slots.len() as int);
    }
}


/// Attribute of the entry that holds the volume label.
pub const ATTR_VOLUME_ID: u8 = 0x08;
/// Attribute of a directory entry for a directory.
pub const ATTR_DIRECTORY: u8 = 0x10;
/// Attribute of a directory entry for a file.
pub const ATTR_ARCHIVE: u8 = 0x20;
/// End of a cluster chain.
pub const EOC: u32 = 0x0FFF_FFFF;

/// All the byte sequences, one after the other.
pub open spec fn concat_all(s: Seq<Seq<u8>>) -> Seq<u8>
    decreases s.len(),
{
    if s.len() == 0 {
        Seq::empty()
    } else {
        concat_all(s.drop_last()) + s.last()
    }
}

/// The `.` entry's name.
pub open spec fn dot_name() -> Seq<u8> {
    seq![46u8, 32u8, 32u8, 32u8, 32u8, 32u8, 32u8, 32u8, 32u8, 32u8, 32u8]
}

/// The `..` entry's name.
pub open spec fn dotdot_name() -> Seq<u8> {
    seq![46u8, 46u8, 32u8, 32u8, 32u8, 32u8, 32u8, 32u8, 32u8, 32u8, 32u8]
}

/// The timestamp of `.` and `..`: 1980-01-01 00:00.
pub open spec fn epoch() -> FatDateTime {
    FatDateTime { date: 33, time: 0 }
}

/// The long name entries of an entry, if it has a long name.
pub open spec fn long_part(e: Entry) -> Seq<u8> {
    match e.long {
        Some(l) => concat_all(lfn_entries_bytes(l@, checksum_upto(e.short@, 11))),
        None => Seq::empty(),
    }
}

impl Plan {
    /// First cluster of directory `i`'s parent; 0 stands for the root.
    pub open spec fn parent_first(&self, i: int) -> u32 {
        let p = self.dirs@[i].parent as int;
        if self.dirs@[p].is_root {
            0u32
        } else {
            self.dir_first@[p]
        }
    }

    /// Clusters of the files among the first `k` entries of directory `i`.
    pub open spec fn file_clusters_before(&self, i: int, k: int) -> int
        decreases k,
    {
        if k <= 0 {
            0
        } else {
            self.file_clusters_before(i, k - 1) + match self.dirs@[i].entries@[k - 1].kind {
                EntryKind::File { size, .. } => file_clusters(size as int, self.cb()),
                EntryKind::Dir(_) => 0,
            }
        }
    }

    /// The cluster entry `k` of directory `i` points to: a subdirectory's
    /// first cluster; for a file, the clusters after the directory's own
    /// and its earlier files' (0 for a file without contents).
    pub open spec fn entry_cluster(&self, i: int, k: int) -> u32 {
        match self.dirs@[i].entries@[k].kind {
            EntryKind::Dir(sub) => self.dir_first@[sub as int],
            EntryKind::File { size, .. } => if size > 0 {
                (self.dir_first@[i] + self.dirs@[i].clusters + self.file_clusters_before(i, k)) as u32
            } else {
                0u32
            },
        }
    }

    /// The directory entries for entry `k` of directory `i`.
    pub open spec fn entry_bytes(&self, i: int, k: int) -> Seq<u8> {
        let e = self.dirs@[i].entries@[k];
        long_part(e) + match e.kind {
            EntryKind::Dir(_) => short_entry_bytes(e.short@, ATTR_DIRECTORY, self.entry_cluster(i, k), 0, e.date),
            EntryKind::File { size, .. } => short_entry_bytes(
                e.short@,
                ATTR_ARCHIVE,
                self.entry_cluster(i, k),
                size as u32,
                e.date,
            ),
        }
    }

    /// The first `k` entries of directory `i`, as stored.
    pub open spec fn entries_bytes(&self, i: int, k: int) -> Seq<u8>
        decreases k,
    {
        if k <= 0 {
            Seq::empty()
        } else {
            self.entries_bytes(i, k - 1) + self.entry_bytes(i, k - 1)
        }
    }

    /// The contents of directory `i`: the volume label in the root, `.`
    /// and `..` elsewhere, then its entries.
    pub open spec fn dir_contents(&self, i: int) -> Seq<u8> {
        let dots = if self.dirs@[i].is_root {
            short_entry_bytes(self.label@, ATTR_VOLUME_ID, 0, 0, epoch())
        } else {
            short_entry_bytes(dot_name(), ATTR_DIRECTORY, self.dir_first@[i], 0, epoch())
                + short_entry_bytes(dotdot_name(), ATTR_DIRECTORY, self.parent_first(i), 0, epoch())
        };
        dots + self.entries_bytes(i, self.dirs@[i].entries.len() as int)
    }
}

pub proof fn lemma_concat_all_len(s: Seq<Seq<u8>>, n: int)
    requires
        forall|j: int| 0 <= j < s.len() ==> (#[trigger] s[j]).len() == n,
    ensures
        concat_all(s).len() == n * s.len(),
    decreases s.len(),
{
    if s.len() > 0 {
        lemma_concat_all_len(s.drop_last(), n);
        assert(n * s.len() == n * (s.len() - 1) + n) by (nonlinear_arith);
    }
}


/// Appends the bytes of `v` to `out`.
pub fn append_bytes(out: &mut Vec<u8>, v: &Vec<u8>)
    ensures
        final(out)@ == old(out)@ + v@,
{
    let mut i: usize = 0;
    while i < v.len()
        invariant
            i <= v.len(),
            out@ == old(out)@ + v@.take(i as int),
        decreases v.len() - i,
    {
        out.push(v[i]);
        assert(v@.take(i + 1) =~= v@.take(i as int).push(v@[i as int]));
        assert(old(out)@ + v@.take(i + 1) =~= old(out)@ + v@.take(i as int) + seq![v@[i as int]]);
        i = i + 1;
    }
    assert(v@.take(v.len() as int) =~= v@);
}

/// Appends `n` zero bytes to `out`.
pub fn append_zeros(out: &mut Vec<u8>, n: u64)
    ensures
        final(out)@ == old(out)@ + Seq::new(n as nat, |i: int| 0u8),
{
    let mut i: u64 = 0;
    while i < n
        invariant
            i <= n,
            out@ =~= old(out)@ + Seq::new(i as nat, |j: int| 0u8),
        decreases n - i,
    {
        out.push(0u8);
        i = i + 1;
    }
}

/// The bytes of an 11-byte name as an array.
fn name_array(b: [u8; 11]) -> (r: [u8; 11])
    ensures
        r@ == b@,
{
    b
}

impl Plan {
    pub proof fn lemma_entry_bytes_len(&self, i: int, k: int)
        requires
            0 <= i < self.dirs.len(),
            0 <= k < self.dirs@[i].entries.len(),
        ensures
            self.entry_bytes(i, k).len() == 32 * entry_slots(self.dirs@[i].entries@[k]),
    {
        let e = self.dirs@[i].entries@[k];
        match e.long {
            Some(l) => {
                let es = lfn_entries_bytes(l@, checksum_upto(e.short@, 11));
                lemma_concat_all_len(es, 32);
            },
            None => {},
        }
    }

    pub proof fn lemma_entries_bytes_len(&self, i: int, k: int)
        requires
            0 <= i < self.dirs.len(),
            0 <= k <= self.dirs@[i].entries.len(),
        ensures
            self.entries_bytes(i, k).len() == 32 * entries_slots(self.dirs@[i].entries@.take(k)),
        decreases k,
    {
        if k > 0 {
            self.lemma_entries_bytes_len(i, k - 1);
            self.lemma_entry_bytes_len(i, k - 1);
            assert(self.dirs@[i].entries@.take(k).drop_last() =~= self.dirs@[i].entries@.take(k - 1));
        }
    }

    pub proof fn lemma_file_clusters_before(&self, i: int, k: int)
        requires
            cluster_size(self.geometry) > 0,
            0 <= i < self.dirs.len(),
            0 <= k <= self.dirs@[i].entries.len(),
            forall|j: int| 0 <= j < self.dirs@[i].entries.len() ==> match #[trigger] self.dirs@[i].entries@[j].kind {
                EntryKind::File { size, .. } => size <= MAX_FILE_SIZE,
                EntryKind::Dir(_) => true,
            },
        ensures
            0 <= self.file_clusters_before(i, k) <= k * MAX_FILE_SIZE,
        decreases k,
    {
        if k > 0 {
            self.lemma_file_clusters_before(i, k - 1);
            match self.dirs@[i].entries@[k - 1].kind {
                EntryKind::File { size, .. } => lemma_file_clusters_bound(size as int, self.cb()),
                EntryKind::Dir(_) => {},
            }
        }
    }

    pub proof fn lemma_dir_contents_len(&self, i: int)
        requires
            0 <= i < self.dirs.len(),
        ensures
            self.dir_contents(i).len() == 32 * dir_slots(self.dirs@[i]),
    {
        self.lemma_entries_bytes_len(i, self.dirs@[i].entries.len() as int);
        assert(self.dirs@[i].entries@.take(self.dirs@[i].entries.len() as int) =~= self.dirs@[i].entries@);
    }

    /// The bytes of directory `index`, as stored in its clusters.
    pub fn dir_bytes(&self, index: usize) -> (r: Vec<u8>)
        requires
            self.wf(),
            index < self.dirs.len(),
        ensures
            r@ == self.dir_contents(index as int),
            r@.len() == 32 * dir_slots(self.dirs@[index as int]),
    {
        let dir = &self.dirs[index];
        let mut out: Vec<u8> = Vec::new();
        let epoch_dt = FatDateTime { date: 33, time: 0 };
        if dir.is_root {
            let v = short_entry(&self.label, ATTR_VOLUME_ID, 0, 0, epoch_dt);
            append_bytes(&mut out, &v);
        } else {
            let dot: [u8; 11] = [46u8, 32u8, 32u8, 32u8, 32u8, 32u8, 32u8, 32u8, 32u8, 32u8, 32u8];
            let dotdot: [u8; 11] = [46u8, 46u8, 32u8, 32u8, 32u8, 32u8, 32u8, 32u8, 32u8, 32u8, 32u8];
            assert(dot@ =~= dot_name());
            assert(dotdot@ =~= dotdot_name());
            assert(dir_links_ok(self.dirs@, index as int));
            let p = dir.parent;
            let parent_first = if self.dirs[p].is_root {
                0u32
            } else {
                self.dir_first[p]
            };
            let v1 = short_entry(&dot, ATTR_DIRECTORY, self.dir_first[index], 0, epoch_dt);
            append_bytes(&mut out, &v1);
            let v2 = short_entry(&dotdot, ATTR_DIRECTORY, parent_first, 0, epoch_dt);
            append_bytes(&mut out, &v2);
        }
        let ghost dots = out@;
        let n = dir.entries.len();
        let cb = self.geometry.cluster_bytes();
        let mut running: u64 = 0;
        let mut k: usize = 0;
        proof {
            assert(dir_links_ok(self.dirs@, index as int));
            assert(dir_size_ok(self.dirs@[index as int], self.cb()));
        }
        while k < n
            invariant
                self.wf(),
                index < self.dirs.len(),
                dir == &self.dirs@[index as int],
                n == dir.entries.len(),
                n <= MAX_DIR_CHILDREN,
                k <= n,
                cb == self.cb(),
                running == self.file_clusters_before(index as int, k as int),
                running <= k * MAX_FILE_SIZE,
                out@ == dots + self.entries_bytes(index as int, k as int),
            decreases n - k,
        {
            let e = &dir.entries[k];
            proof {
                assert(dir_links_ok(self.dirs@, index as int));
                self.lemma_file_clusters_before(index as int, k as int + 1);
            }
            let ghost before = out@;
            match &e.long {
                Some(l) => {
                    assert(dir_size_ok(self.dirs@[index as int], self.cb()));
                    assert(l.len() <= 268);
                    let parts = lfn_entries(l, lfn_checksum(&e.short));
                    let ghost es = lfn_entries_bytes(l@, checksum_upto(e.short@, 11));
                    let mut j: usize = 0;
                    while j < parts.len()
                        invariant
                            j <= parts.len(),
                            parts@.len() == es.len(),
                            forall|t: int| 0 <= t < parts@.len() ==> #[trigger] parts@[t]@ == es[t],
                            out@ == before + concat_all(es.take(j as int)),
                        decreases parts.len() - j,
                    {
                        append_bytes(&mut out, &parts[j]);
                        assert(es.take(j + 1).drop_last() =~= es.take(j as int));
                        j = j + 1;
                    }
                    assert(es.take(parts.len() as int) =~= es);
                },
                None => {},
            }
            assert(out@ == before + long_part(*e));
            let v = match e.kind {
                EntryKind::Dir(sub) => short_entry(&e.short, ATTR_DIRECTORY, self.dir_first[sub], 0, e.date),
                EntryKind::File { size, .. } => {
                    let c: u64 = ((size as u128 + cb as u128 - 1) / cb as u128) as u64;
                    let first: u32 = if size > 0 {
                        let sum: u64 = self.dir_first[index] as u64 + dir.clusters as u64 + running;
                        (#[verifier::truncate] (sum as u32))
                    } else {
                        0u32
                    };
                    running = running + c;
                    short_entry(&e.short, ATTR_ARCHIVE, first, size as u32, e.date)
                },
            };
            append_bytes(&mut out, &v);
            k = k + 1;
        }
        proof {
            self.lemma_entries_bytes_len(index as int, n as int);
            assert(dir.entries@.take(n as int) =~= dir.entries@);
        }
        out
    }
}


/// Byte `b` of the boot sector.
pub open spec fn boot_byte(g: Geometry, label: Seq<u8>, hidden: u32, volume_id: u32, b: int) -> u8 {
    if b == 0 {
        0xEBu8
    } else if b == 1 {
        0x58u8
    } else if b == 2 {
        0x90u8
    } else if 3 <= b < 11 {
        seq![77u8, 83u8, 87u8, 73u8, 78u8, 52u8, 46u8, 49u8][b - 3]
    } else if 11 <= b < 13 {
        byte16((g.bytes_per_sector as u16) as int, b - 11)
    } else if b == 13 {
        g.sectors_per_cluster as u8
    } else if 14 <= b < 16 {
        byte16((g.reserved_sectors as u16) as int, b - 14)
    } else if b == 16 {
        2u8
    } else if b == 21 {
        0xF8u8
    } else if 24 <= b < 26 {
        byte16(63, b - 24)
    } else if 26 <= b < 28 {
        byte16(255, b - 26)
    } else if 28 <= b < 32 {
        byte32(hidden as int, b - 28)
    } else if 32 <= b < 36 {
        byte32(g.total_sectors as int, b - 32)
    } else if 36 <= b < 40 {
        byte32(g.fat_sectors as int, b - 36)
    } else if 44 <= b < 48 {
        byte32(2, b - 44)
    } else if 48 <= b < 50 {
        byte16(1, b - 48)
    } else if 50 <= b < 52 {
        byte16(6, b - 50)
    } else if b == 64 {
        0x80u8
    } else if b == 66 {
        0x29u8
    } else if 67 <= b < 71 {
        byte32(volume_id as int, b - 67)
    } else if 71 <= b < 82 {
        label[b - 71]
    } else if 82 <= b < 90 {
        seq![70u8, 65u8, 84u8, 51u8, 50u8, 32u8, 32u8, 32u8][b - 82]
    } else if b == 510 {
        0x55u8
    } else if b == 511 {
        0xAAu8
    } else {
        0u8
    }
}

/// Byte `b` of the FSInfo sector.
pub open spec fn fsinfo_byte(free: u32, next_free: u32, b: int) -> u8 {
    if 0 <= b < 4 {
        byte32(0x4161_5252, b)
    } else if 484 <= b < 488 {
        byte32(0x6141_7272, b - 484)
    } else if 488 <= b < 492 {
        byte32(free as int, b - 488)
    } else if 492 <= b < 496 {
        byte32(next_free as int, b - 492)
    } else if 508 <= b < 512 {
        byte32(0xAA55_0000, b - 508)
    } else {
        0u8
    }
}


fn boot_byte_exec(g: &Geometry, label: &[u8; 11], oem: &[u8; 8], fs: &[u8; 8], hidden_sectors: u32, volume_id: u32, b: usize) -> (r: u8)
    requires
        b < 512,
        oem@ == seq![77u8, 83u8, 87u8, 73u8, 78u8, 52u8, 46u8, 49u8],
        fs@ == seq![70u8, 65u8, 84u8, 51u8, 50u8, 32u8, 32u8, 32u8],
    ensures
        r == boot_byte(*g, label@, hidden_sectors, volume_id, b as int),
{
    if b == 0 {
                0xEB
            } else if b == 1 {
                0x58
            } else if b == 2 {
                0x90
            } else if 3 <= b && b < 11 {
                oem[b - 3]
            } else if 11 <= b && b < 13 {
                byte16_exec((#[verifier::truncate] (g.bytes_per_sector as u16)) as u32, (b - 11) as u32)
            } else if b == 13 {
                #[verifier::truncate] (g.sectors_per_cluster as u8)
            } else if 14 <= b && b < 16 {
                byte16_exec((#[verifier::truncate] (g.reserved_sectors as u16)) as u32, (b - 14) as u32)
            } else if b == 16 {
                2
            } else if b == 21 {
                0xF8
            } else if 24 <= b && b < 26 {
                byte16_exec(63, (b - 24) as u32)
            } else if 26 <= b && b < 28 {
                byte16_exec(255, (b - 26) as u32)
            } else if 28 <= b && b < 32 {
                byte32_exec(hidden_sectors, (b - 28) as u32)
            } else if 32 <= b && b < 36 {
                byte32_exec(g.total_sectors, (b - 32) as u32)
            } else if 36 <= b && b < 40 {
                byte32_exec(g.fat_sectors, (b - 36) as u32)
            } else if 44 <= b && b < 48 {
                byte32_exec(2, (b - 44) as u32)
            } else if 48 <= b && b < 50 {
                byte16_exec(1, (b - 48) as u32)
            } else if 50 <= b && b < 52 {
                byte16_exec(6, (b - 50) as u32)
            } else if b == 64 {
                0x80
            } else if b == 66 {
                0x29
            } else if 67 <= b && b < 71 {
                byte32_exec(volume_id, (b - 67) as u32)
            } else if 71 <= b && b < 82 {
                label[b - 71]
            } else if 82 <= b && b < 90 {
                fs[b - 82]
            } else if b == 510 {
                0x55
            } else if b == 511 {
                0xAA
            } else {
                0
            }
}

impl Plan {
    /// The boot sector (BIOS parameter block of a FAT32 volume).
    pub open spec fn boot_bytes(&self, hidden: u32, volume_id: u32) -> Seq<u8> {
        Seq::new(512, |b: int| boot_byte(self.geometry, self.label@, hidden, volume_id, b))
    }

    /// Free clusters after the plan.
    pub open spec fn free_clusters(&self) -> u32 {
        (self.geometry.clusters - self.used_clusters) as u32
    }

    /// The FSInfo sector: free clusters and the first free one (all ones
    /// where none is free).
    pub open spec fn fsinfo_bytes(&self) -> Seq<u8> {
        let free = self.free_clusters();
        let next_free = if free > 0 {
            (2 + self.used_clusters) as u32
        } else {
            u32::MAX
        };
        Seq::new(512, |b: int| fsinfo_byte(free, next_free, b))
    }

    pub fn boot_sector(&self, hidden_sectors: u32, volume_id: u32) -> (r: Vec<u8>)
        ensures
            r@ == self.boot_bytes(hidden_sectors, volume_id),
    {
        let g = &self.geometry;
        let oem: [u8; 8] = [77u8, 83u8, 87u8, 73u8, 78u8, 52u8, 46u8, 49u8];
        let fs: [u8; 8] = [70u8, 65u8, 84u8, 51u8, 50u8, 32u8, 32u8, 32u8];
        let mut out: Vec<u8> = Vec::new();
        let mut b: usize = 0;
        while b < 512
            invariant
                b <= 512,
                out@.len() == b,
                oem@ == seq![77u8, 83u8, 87u8, 73u8, 78u8, 52u8, 46u8, 49u8],
                fs@ == seq![70u8, 65u8, 84u8, 51u8, 50u8, 32u8, 32u8, 32u8],
                self.label@.len() == 11,
                forall|j: int| 0 <= j < b ==> out@[j] == #[trigger] boot_byte(self.geometry, self.label@, hidden_sectors, volume_id, j),
            decreases 512 - b,
        {
            let v = boot_byte_exec(&self.geometry, &self.label, &oem, &fs, hidden_sectors, volume_id, b);
            out.push(v);
            b = b + 1;
        }
        assert(out@ =~= self.boot_bytes(hidden_sectors, volume_id));
        out
    }

    pub fn fsinfo_sector(&self) -> (r: Vec<u8>)
        requires
            self.wf(),
        ensures
            r@ == self.fsinfo_bytes(),
    {
        let free = self.geometry.clusters - self.used_clusters;
        let next_free: u32 = if free > 0 {
            2 + self.used_clusters
        } else {
            u32::MAX
        };
        let mut out: Vec<u8> = Vec::new();
        let mut b: usize = 0;
        while b < 512
            invariant
                b <= 512,
                out@.len() == b,
                forall|j: int| 0 <= j < b ==> out@[j] == #[trigger] fsinfo_byte(free, next_free, j),
            decreases 512 - b,
        {
            let v: u8 = if b < 4 {
                byte32_exec(0x4161_5252, b as u32)
            } else if 484 <= b && b < 488 {
                byte32_exec(0x6141_7272, (b - 484) as u32)
            } else if 488 <= b && b < 492 {
                byte32_exec(free, (b - 488) as u32)
            } else if 492 <= b && b < 496 {
                byte32_exec(next_free, (b - 492) as u32)
            } else if 508 <= b && b < 512 {
                byte32_exec(0xAA55_0000, (b - 508) as u32)
            } else {
                0
            };
            out.push(v);
            b = b + 1;
        }
        assert(out@ =~= self.fsinfo_bytes());
        out
    }
}


/// Entries of one FAT.
pub open spec fn fat_entries(g: Geometry) -> int {
    g.fat_sectors * g.bytes_per_sector / 4
}

/// Where the data region starts in what `write` produces: after the
/// reserved sectors and both FATs.
pub open spec fn data_start(g: Geometry) -> int {
    g.reserved_sectors * g.bytes_per_sector + 2 * (fat_entries(g) * 4)
}

/// With whole FAT entries per sector, the data region starts at the
/// data offset of the geometry.
pub proof fn lemma_data_start(g: Geometry)
    requires
        g.bytes_per_sector % 4 == 0,
    ensures
        data_start(g) == g.spec_data_offset(),
{
    let f = g.fat_sectors as int;
    let b = g.bytes_per_sector as int;
    let r = g.reserved_sectors as int;
    let m = b / 4;
    vstd::arithmetic::div_mod::lemma_fundamental_div_mod(b, 4);
    assert(b == 4 * m);
    vstd::arithmetic::mul::lemma_mul_is_associative(f, 4, m);
    vstd::arithmetic::mul::lemma_mul_is_commutative(f, 4);
    vstd::arithmetic::mul::lemma_mul_is_associative(4, f, m);
    assert(f * (4 * m) == 4 * (f * m));
    assert(f * b == 4 * (f * m));
    vstd::arithmetic::div_mod::lemma_div_multiples_vanish(f * m, 4);
    assert(f * b / 4 == f * m);
    vstd::arithmetic::mul::lemma_mul_is_distributive_add_other_way(b, r, 2 * f);
    vstd::arithmetic::mul::lemma_mul_is_associative(2, f, b);
}

/// `a` is a prefix of `b`.
pub open spec fn prefix_of(a: Seq<u8>, b: Seq<u8>) -> bool {
    a.len() <= b.len() && b.take(a.len() as int) == a
}

pub proof fn lemma_prefix_subrange(a: Seq<u8>, b: Seq<u8>, x: int, y: int)
    requires
        prefix_of(a, b),
        0 <= x <= y <= a.len(),
    ensures
        b.subrange(x, y) == a.subrange(x, y),
{
    assert(b.subrange(x, y) =~= b.take(a.len() as int).subrange(x, y));
}

pub proof fn lemma_prefix_append(a: Seq<u8>, x: Seq<u8>)
    ensures
        prefix_of(a, a + x),
        prefix_of(a, a),
{
    assert((a + x).take(a.len() as int) =~= a);
    assert(a.take(a.len() as int) =~= a);
}

pub proof fn lemma_prefix_trans(a: Seq<u8>, b: Seq<u8>, c: Seq<u8>)
    requires
        prefix_of(a, b),
        prefix_of(b, c),
    ensures
        prefix_of(a, c),
{
    assert(c.take(a.len() as int) =~= c.take(b.len() as int).take(a.len() as int));
}

impl Plan {
    /// The FAT entry for cluster `c`: media and end markers in the first
    /// two, then each allocated cluster chained to the next one up to the
    /// end of its chain, then free clusters.
    pub open spec fn fat_value(&self, c: int) -> u32 {
        if c == 0 {
            0x0FFF_FFF8u32
        } else if c == 1 {
            EOC
        } else if c < 2 + self.used_clusters {
            if self.chain_ends@.contains(c as u32) {
                EOC
            } else {
                (c + 1) as u32
            }
        } else {
            0u32
        }
    }

    /// One FAT, as stored.
    pub open spec fn fat_bytes(&self) -> Seq<u8> {
        Seq::new((fat_entries(self.geometry) * 4) as nat, |b: int| byte32(self.fat_value(b / 4) as int, b % 4))
    }
}

pub proof fn lemma_chain_ends_sorted(p: Plan, k: int)
    requires
        p.allocation_ok(),
        0 <= k <= p.slots.len(),
    ensures
        forall|a: int, b: int| 0 <= a < b < p.chain_ends_upto(k).len() ==> #[trigger] p.chain_ends_upto(k)[a] < #[trigger] p.chain_ends_upto(k)[b],
        forall|a: int| 0 <= a < p.chain_ends_upto(k).len() ==> 2 <= #[trigger] p.chain_ends_upto(k)[a] < 2 + p.clusters_before(k),
    decreases k,
{
    if k > 0 {
        lemma_chain_ends_sorted(p, k - 1);
        lemma_clusters_before_mono(p, k - 1, k);
        lemma_clusters_before_mono(p, k, p.slots.len() as int);
        lemma_clusters_before_mono(p, 0, k - 1);
        let e = p.chain_ends_upto(k - 1);
        let e2 = p.chain_ends_upto(k);
        if p.slot_clusters(p.slots@[k - 1]) > 0 {
            let v = (2 + p.clusters_before(k) - 1) as u32;
            assert(v as int == 1 + p.clusters_before(k));
            assert(e2 == e.push(v));
            assert forall|a: int, b: int| 0 <= a < b < e2.len() implies #[trigger] e2[a] < #[trigger] e2[b] by {
                if b < e.len() {
                    assert(e2[a] == e[a] && e2[b] == e[b]);
                } else {
                    assert(e2[a] == e[a]);
                }
            }
            assert forall|a: int| 0 <= a < e2.len() implies 2 <= #[trigger] e2[a] < 2 + p.clusters_before(k) by {
                if a < e.len() {
                    assert(e2[a] == e[a]);
                }
            }
        } else {
            assert(e2 == e);
        }
    }
}

impl Plan {
    /// Writes one FAT.
    fn write_fat(&self, out: &mut Vec<u8>)
        requires
            self.wf(),
        ensures
            final(out)@ == old(out)@ + self.fat_bytes(),
    {
        let ghost fb = self.fat_bytes();
        proof {
            vstd::arithmetic::mul::lemma_mul_upper_bound(
                self.geometry.fat_sectors as int,
                u32::MAX as int,
                self.geometry.bytes_per_sector as int,
                u32::MAX as int,
            );
        }
        let entries: u64 = self.geometry.fat_sectors as u64 * self.geometry.bytes_per_sector as u64 / 4;
        let used_end: u64 = 2 + self.used_clusters as u64;
        let n = self.chain_ends.len();
        proof {
            lemma_chain_ends_sorted(*self, self.slots.len() as int);
        }
        let mut j: usize = 0;
        let mut c: u64 = 0;
        while c < entries
            invariant
                self.wf(),
                entries == fat_entries(self.geometry),
                used_end == 2 + self.used_clusters,
                n == self.chain_ends.len(),
                fb == self.fat_bytes(),
                c <= entries,
                j <= n,
                forall|t: int| 0 <= t < j ==> self.chain_ends@[t] < c,
                forall|a: int, b: int| 0 <= a < b < n ==> self.chain_ends@[a] < self.chain_ends@[b],
                out@ == old(out)@ + fb.take(4 * c as int),
            decreases entries - c,
        {
            let value: u32 = if c == 0 {
                0x0FFF_FFF8
            } else if c == 1 {
                EOC
            } else if c < used_end {
                while j < n && (self.chain_ends[j] as u64) < c
                    invariant
                        j <= n,
                        n == self.chain_ends.len(),
                        forall|t: int| 0 <= t < j ==> self.chain_ends@[t] < c,
                    decreases n - j,
                {
                    j = j + 1;
                }
                if j < n && self.chain_ends[j] as u64 == c {
                    EOC
                } else {
                    proof {
                        if self.chain_ends@.contains(c as u32) {
                            let t = choose|t: int| 0 <= t < n && self.chain_ends@[t] == c as u32;
                            if t < j {
                            } else if t > j {
                                assert(self.chain_ends@[j as int] < self.chain_ends@[t]);
                            }
                        }
                    }
                    (c + 1) as u32
                }
            } else {
                0
            };
            assert(value == self.fat_value(c as int));
            let ghost before = out@;
            let mut k: u32 = 0;
            while k < 4
                invariant
                    k <= 4,
                    out@ == before + Seq::new(k as nat, |b: int| byte32(value as int, b)),
                decreases 4 - k,
            {
                out.push(byte32_exec(value, k));
                assert(before + Seq::new((k + 1) as nat, |b: int| byte32(value as int, b)) =~= before
                    + Seq::new(k as nat, |b: int| byte32(value as int, b)) + seq![byte32(value as int, k as int)]);
                k = k + 1;
            }
            assert(fb.take(4 * (c + 1) as int) =~= fb.take(4 * c as int) + Seq::new(4, |b: int| byte32(value as int, b))) by {
                assert forall|b: int| 0 <= b < 4 implies fb[4 * c + b] == byte32(value as int, b) by {
                    assert((4 * c + b) / 4 == c);
                    assert((4 * c + b) % 4 == b);
                }
            }
            c = c + 1;
        }
        assert(fb.take(4 * entries as int) =~= fb);
    }
}


impl Plan {
    /// The reserved region: the boot sector and FSInfo in sectors 0 and 1,
    /// their backups in 6 and 7, zeros elsewhere.
    pub open spec fn reserved_bytes(&self, hidden: u32, volume_id: u32) -> Seq<u8> {
        let bps = self.geometry.bytes_per_sector as int;
        Seq::new(
            (self.geometry.reserved_sectors * bps) as nat,
            |x: int|
                {
                    let sector = x / bps;
                    let o = x % bps;
                    if (sector == 0 || sector == 6) && o < 512 {
                        self.boot_bytes(hidden, volume_id)[o]
                    } else if (sector == 1 || sector == 7) && o < 512 {
                        self.fsinfo_bytes()[o]
                    } else {
                        0u8
                    }
                },
        )
    }

    /// Slot `j` is in `out`, with the data region starting at `start`:
    /// a directory's contents, or what `copy` gave for a file.
    pub open spec fn slot_written<F: Fn(usize, u64) -> Vec<u8>>(
        &self,
        out: Seq<u8>,
        start: int,
        j: int,
        copy: F,
    ) -> bool {
        let pos = start + self.clusters_before(j) * self.cb();
        match self.slots@[j] {
            Slot::Dir(i) => out.subrange(pos, pos + self.dir_contents(i as int).len()) == self.dir_contents(
                i as int,
            ),
            Slot::File { id, size } => size > 0 ==> exists|v: Vec<u8>|
                call_ensures(copy, (id, size), v) && out.subrange(pos, pos + size) == v@,
        }
    }
}

impl Plan {
    /// The file of placement `p` is in `out` at its offset, the data
    /// region starting at `start`: bytes that `copy` gave for it.
    pub open spec fn placed<F: Fn(usize, u64) -> Vec<u8>>(
        &self,
        out: Seq<u8>,
        start: int,
        p: Placement,
        copy: F,
    ) -> bool {
        let at = start + p.offset - self.geometry.spec_data_offset();
        exists|v: Vec<u8>| call_ensures(copy, (p.id, p.size), v) && out.subrange(at, at + p.size) == v@
    }
}

/// What reading a volume back relies on: when a volume is written from
/// the start of `out` and `copy` gives each file's contents as `data` of
/// its id and size, every file's bytes sit exactly where the plan places
/// it, `offset` bytes into the volume.
pub proof fn lemma_files_where_placed<F: Fn(usize, u64) -> Vec<u8>>(
    plan: Plan,
    out: Seq<u8>,
    copy: F,
    data: spec_fn(usize, u64) -> Seq<u8>,
)
    requires
        plan.geometry.bytes_per_sector % 4 == 0,
        forall|i: int|
            0 <= i < plan.placements.len() ==> plan.placed(
                out,
                data_start(plan.geometry),
                #[trigger] plan.placements@[i],
                copy,
            ),
        forall|id: usize, size: u64, v: Vec<u8>| call_ensures(copy, (id, size), v) ==> v@ == data(id, size),
    ensures
        forall|i: int|
            0 <= i < plan.placements.len() ==> {
                let p = #[trigger] plan.placements@[i];
                out.subrange(p.offset as int, p.offset + p.size) == data(p.id, p.size)
            },
{
    lemma_data_start(plan.geometry);
    assert forall|i: int| 0 <= i < plan.placements.len() implies {
        let p = #[trigger] plan.placements@[i];
        out.subrange(p.offset as int, p.offset + p.size) == data(p.id, p.size)
    } by {
        let p = plan.placements@[i];
        assert(plan.placed(out, data_start(plan.geometry), p, copy));
        let v = choose|v: Vec<u8>|
            call_ensures(copy, (p.id, p.size), v) && out.subrange(
                data_start(plan.geometry) + p.offset - plan.geometry.spec_data_offset(),
                data_start(plan.geometry) + p.offset - plan.geometry.spec_data_offset() + p.size,
            ) == v@;
        assert(v@ == data(p.id, p.size));
    }
}

pub proof fn lemma_placement_slot(p: Plan, k: int, i: int)
    requires
        p.allocation_ok(),
        0 <= k <= p.slots.len(),
        0 <= i < p.placements_upto(k).len(),
    ensures
        exists|j: int|
            0 <= j < k && (#[trigger] p.slots@[j]) == (Slot::File {
                id: p.placements_upto(k)[i].id,
                size: p.placements_upto(k)[i].size,
            }) && p.placements_upto(k)[i].size > 0 && p.placements_upto(k)[i].offset
                == p.geometry.spec_data_offset() + p.clusters_before(j) * p.cb(),
    decreases k,
{
    let prev = p.placements_upto(k - 1);
    if i < prev.len() {
        lemma_placement_slot(p, k - 1, i);
        let j = choose|j: int|
            0 <= j < k - 1 && (#[trigger] p.slots@[j]) == (Slot::File { id: prev[i].id, size: prev[i].size })
                && prev[i].size > 0 && prev[i].offset == p.geometry.spec_data_offset()
                + p.clusters_before(j) * p.cb();
        match p.slots@[k - 1] {
            Slot::File { id, size } => {
                if size > 0 {
                    assert(p.placements_upto(k)[i] == prev[i]);
                }
            },
            Slot::Dir(_) => {},
        }
        assert(p.placements_upto(k)[i] == prev[i]);
    } else {
        lemma_clusters_before_mono(p, k - 1, p.slots.len() as int);
        lemma_clusters_before_mono(p, 0, k - 1);
        let g = p.geometry;
        let c = p.clusters_before(k - 1);
        assert(c * p.cb() <= g.clusters * p.cb()) by (nonlinear_arith)
            requires
                0 <= c <= g.clusters,
                p.cb() > 0,
        ;
        match p.slots@[k - 1] {
            Slot::File { id, size } => {
                assert(p.slots@[k - 1] == (Slot::File { id, size }));
            },
            Slot::Dir(_) => {},
        }
    }
}

impl Plan {
    /// Writes the reserved sectors (boot sector, FSInfo and their backups)
    /// and both FATs to the end of `out`: everything before the data
    /// region.
    pub fn write_head(&self, out: &mut Vec<u8>, hidden_sectors: u32, volume_id: u32)
        requires
            self.wf(),
        ensures
            final(out)@ == old(out)@ + self.reserved_bytes(hidden_sectors, volume_id) + self.fat_bytes()
                + self.fat_bytes(),
    {
        let g = &self.geometry;
        let bps = g.bytes_per_sector as u64;
        let boot = self.boot_sector(hidden_sectors, volume_id);
        let fsinfo = self.fsinfo_sector();
        let ghost base = out@.len() as int;
        let ghost rbytes = self.reserved_bytes(hidden_sectors, volume_id);
        proof {
            vstd::arithmetic::mul::lemma_mul_upper_bound(
                g.reserved_sectors as int,
                u32::MAX as int,
                bps as int,
                u32::MAX as int,
            );
        }
        let reserved = g.reserved_sectors as u64;
        let mut sector: u64 = 0;
        while sector < reserved
            invariant
                self.wf(),
                bps == self.geometry.bytes_per_sector,
                bps > 0,
                reserved == self.geometry.reserved_sectors,
                sector <= reserved,
                boot@ == self.boot_bytes(hidden_sectors, volume_id),
                fsinfo@ == self.fsinfo_bytes(),
                rbytes == self.reserved_bytes(hidden_sectors, volume_id),
                rbytes.len() == reserved * bps,
                out@ == old(out)@ + rbytes.take(sector * bps),
                base == old(out)@.len(),
            decreases reserved - sector,
        {
            let mut o: u64 = 0;
            let ghost before = out@;
            proof {
                assert(sector * bps + bps <= reserved * bps) by (nonlinear_arith)
                    requires
                        sector < reserved,
                        bps > 0,
                ;
            }
            while o < bps
                invariant
                    o <= bps,
                    bps > 0,
                    sector < reserved,
                    sector * bps + bps <= rbytes.len(),
                    boot@ == self.boot_bytes(hidden_sectors, volume_id),
                    fsinfo@ == self.fsinfo_bytes(),
                    rbytes == self.reserved_bytes(hidden_sectors, volume_id),
                    bps == self.geometry.bytes_per_sector,
                    before == old(out)@ + rbytes.take(sector * bps),
                    out@ == old(out)@ + rbytes.take(sector * bps + o),
                decreases bps - o,
            {
                let v: u8 = if (sector == 0 || sector == 6) && o < 512 {
                    boot[o as usize]
                } else if (sector == 1 || sector == 7) && o < 512 {
                    fsinfo[o as usize]
                } else {
                    0u8
                };
                proof {
                    vstd::arithmetic::div_mod::lemma_fundamental_div_mod_converse(
                        sector * bps + o,
                        bps as int,
                        sector as int,
                        o as int,
                    );
                    assert(v == rbytes[sector * bps + o]);
                }
                out.push(v);
                assert(old(out)@ + rbytes.take(sector * bps + o + 1) =~= old(out)@ + rbytes.take(sector * bps + o) + seq![v]);
                o = o + 1;
            }
            assert((sector + 1) * bps == sector * bps + bps) by (nonlinear_arith);
            sector = sector + 1;
        }
        proof {
            assert(rbytes.take(reserved * bps) =~= rbytes);
        }
        let ghost after_reserved = out@;
        self.write_fat(out);
        let ghost after_fat1 = out@;
        self.write_fat(out);
        assert(out@ =~= old(out)@ + self.reserved_bytes(hidden_sectors, volume_id) + self.fat_bytes()
            + self.fat_bytes());
    }

    /// The bytes slot `k` takes in the data region: its clusters.
    pub fn slot_len(&self, k: usize) -> (r: u64)
        requires
            self.wf(),
            k < self.slots.len(),
        ensures
            r == self.slot_clusters(self.slots@[k as int]) * self.cb(),
    {
        proof {
            lemma_clusters_before_mono(*self, k as int, k as int + 1);
            lemma_clusters_before_mono(*self, k as int + 1, self.slots.len() as int);
        }
        let cb = self.geometry.cluster_bytes();
        match self.slots[k] {
            Slot::Dir(i) => {
                proof {
                    assert(self.dirs@[i as int].clusters <= self.geometry.clusters);
                    vstd::arithmetic::mul::lemma_mul_inequality(
                        self.dirs@[i as int].clusters as int,
                        self.geometry.clusters as int,
                        cb as int,
                    );
                }
                self.dirs[i].clusters as u64 * cb
            },
            Slot::File { size, .. } => {
                let c: u64 = ((size as u128 + cb as u128 - 1) / cb as u128) as u64;
                proof {
                    lemma_file_clusters_bound(size as int, cb as int);
                    vstd::arithmetic::mul::lemma_mul_inequality(c as int, self.geometry.clusters as int, cb as int);
                }
                c * cb
            },
        }
    }

    /// Writes the whole volume to the end of `out`: reserved sectors, both
    /// FATs, then the data region in allocation order. `hidden_sectors` is
    /// the partition's first sector on the disk. `copy` gives the contents
    /// of file `id`, which must be exactly `size` bytes.
    pub fn write<F: Fn(usize, u64) -> Vec<u8>>(
        &self,
        out: &mut Vec<u8>,
        hidden_sectors: u32,
        volume_id: u32,
        copy: F,
    ) -> (r: Result<(), String>)
        requires
            self.wf(),
            forall|id: usize, size: u64| copy.requires((id, size)),
        ensures
            prefix_of(old(out)@, final(out)@),
            r is Ok ==> {
                let base = old(out)@.len() as int;
                let rb = self.reserved_bytes(hidden_sectors, volume_id).len() as int;
                let fb = self.fat_bytes().len() as int;
                let start = base + data_start(self.geometry);
                &&& final(out)@.len() == start + self.used_clusters * self.cb()
                &&& final(out)@.subrange(base, base + rb) == self.reserved_bytes(hidden_sectors, volume_id)
                &&& final(out)@.subrange(base + rb, base + rb + fb) == self.fat_bytes()
                &&& final(out)@.subrange(base + rb + fb, base + rb + 2 * fb) == self.fat_bytes()
                &&& forall|j: int| 0 <= j < self.slots.len() ==> self.slot_written(final(out)@, start, j, copy)
                &&& forall|i: int| 0 <= i < self.placements.len() ==> self.placed(
                    final(out)@,
                    start,
                    #[trigger] self.placements@[i],
                    copy,
                )
            },
            r matches Err(m) ==> self.write_failed(final(out)@, old(out)@.len() + data_start(self.geometry), copy, m@),
    {
        let ghost rbytes = self.reserved_bytes(hidden_sectors, volume_id);
        let ghost base = out@.len() as int;
        self.write_head(out, hidden_sectors, volume_id);
        let ghost after_reserved = old(out)@ + rbytes;
        let ghost after_fat1 = after_reserved + self.fat_bytes();
        let ghost after_fat2 = out@;
        assert(after_fat2 =~= after_fat1 + self.fat_bytes());
        proof {
            lemma_prefix_append(old(out)@, rbytes);
            lemma_prefix_append(after_reserved, self.fat_bytes());
            lemma_prefix_append(after_fat1, self.fat_bytes());
            lemma_prefix_trans(old(out)@, after_reserved, after_fat1);
            lemma_prefix_trans(old(out)@, after_fat1, after_fat2);
            lemma_prefix_append(after_fat2, Seq::empty());
        }
        let ghost start = out@.len() as int;
        let ghost fbytes = self.fat_bytes();
        proof {
            assert(start == base + data_start(self.geometry));
        }
        let cb = self.geometry.cluster_bytes();
        let n = self.slots.len();
        let mut k: usize = 0;
        while k < n
            invariant
                self.wf(),
                n == self.slots.len(),
                k <= n,
                cb == self.cb(),
                start == base + data_start(self.geometry),
                base == old(out)@.len(),
                prefix_of(after_fat2, out@),
                prefix_of(old(out)@, after_fat2),
                prefix_of(old(out)@, out@),
                after_fat2.len() == start,
                forall|id: usize, size: u64| copy.requires((id, size)),
                out@.len() == start + self.clusters_before(k as int) * cb,
                forall|j: int| 0 <= j < k ==> self.slot_written(out@, start, j, copy),
            decreases n - k,
        {
            proof {
                lemma_clusters_before_mono(*self, k as int, k as int + 1);
                lemma_clusters_before_mono(*self, k as int + 1, n as int);
            }
            let ghost before = out@;
            match self.slots[k] {
                Slot::Dir(i) => {
                    let bytes = self.dir_bytes(i);
                    append_bytes(out, &bytes);
                    proof {
                        assert(dir_size_ok(self.dirs@[i as int], cb as int));
                        assert(self.dirs@[i as int].clusters <= self.geometry.clusters);
                        vstd::arithmetic::mul::lemma_mul_inequality(
                            self.dirs@[i as int].clusters as int,
                            self.geometry.clusters as int,
                            cb as int,
                        );
                    }
                    let padded = self.dirs[i].clusters as u64 * cb;
                    let ghost mid = out@;
                    append_zeros(out, padded - bytes.len() as u64);
                    proof {
                        assert(out@.len() == before.len() + self.dirs@[i as int].clusters * cb);
                        assert(out@.subrange(before.len() as int, (before.len() + bytes@.len()) as int) =~= bytes@);
                        assert(self.slot_written(out@, start, k as int, copy));
                        lemma_prefix_append(before, bytes@);
                        lemma_prefix_append(mid, Seq::new((padded - bytes.len()) as nat, |x: int| 0u8));
                        lemma_prefix_trans(before, mid, out@);
                    }
                },
                Slot::File { id, size } => {
                    let v = copy(id, size);
                    if v.len() as u64 != size {
                        let mut m = String::from_str("file ");
                        push_decimal(&mut m, id as u64);
                        m.append(": expected ");
                        push_decimal(&mut m, size);
                        m.append(" bytes, got ");
                        push_decimal(&mut m, v.len() as u64);
                        proof {
                            reveal_strlit("file ");
                            reveal_strlit(": expected ");
                            reveal_strlit(" bytes, got ");
                            assert(m@ =~= length_error_text(id, size, v@.len()));
                            assert(self.write_failed_at(out@, old(out)@.len() + data_start(self.geometry), copy, k as int, v@.len(), m@));
                            assert(self.write_failed(out@, old(out)@.len() + data_start(self.geometry), copy, m@));
                        }
                        return Err(m);
                    }
                    append_bytes(out, &v);
                    let ghost mid = out@;
                    let c: u64 = ((size as u128 + cb as u128 - 1) / cb as u128) as u64;
                    proof {
                        lemma_file_clusters_bound(size as int, cb as int);
                        vstd::arithmetic::mul::lemma_mul_inequality(c as int, self.geometry.clusters as int, cb as int);
                    }
                    append_zeros(out, c * cb - size);
                    proof {
                        assert(out@.len() == before.len() + c * cb);
                        assert(out@.subrange(before.len() as int, (before.len() + size) as int) =~= v@);
                        assert(self.slot_written(out@, start, k as int, copy));
                        lemma_prefix_append(before, v@);
                        lemma_prefix_append(mid, Seq::new((c * cb - size) as nat, |x: int| 0u8));
                        lemma_prefix_trans(before, mid, out@);
                    }
                },
            }
            proof {
                let sc = self.slot_clusters(self.slots@[k as int]);
                assert(out@.len() == before.len() + sc * cb);
                assert(out@.len() == start + self.clusters_before(k + 1) * cb) by (nonlinear_arith)
                    requires
                        out@.len() == before.len() + sc * cb,
                        before.len() == start + self.clusters_before(k as int) * cb,
                        self.clusters_before(k + 1) == self.clusters_before(k as int) + sc,
                ;
                assert(prefix_of(before, out@));
                lemma_prefix_trans(after_fat2, before, out@);
                lemma_prefix_trans(old(out)@, before, out@);
                assert forall|j: int| 0 <= j < k + 1 implies self.slot_written(out@, start, j, copy) by {
                    lemma_clusters_before_mono(*self, j, k as int);
                    if j < k {
                        assert(self.slot_written(before, start, j, copy));
                        let pos = start + self.clusters_before(j) * cb;
                        lemma_clusters_before_mono(*self, j, j + 1);
                        lemma_clusters_before_mono(*self, j + 1, k as int);
                        match self.slots@[j] {
                            Slot::Dir(i) => {
                                assert(dir_size_ok(self.dirs@[i as int], cb as int));
                                self.lemma_dir_contents_len(i as int);
                                assert(pos + self.dir_contents(i as int).len() <= before.len()) by (nonlinear_arith)
                                    requires
                                        pos == start + self.clusters_before(j) * cb,
                                        self.clusters_before(j + 1) == self.clusters_before(j) + self.dirs@[i as int].clusters,
                                        self.clusters_before(j + 1) <= self.clusters_before(k as int),
                                        before.len() == start + self.clusters_before(k as int) * cb,
                                        self.dir_contents(i as int).len() <= self.dirs@[i as int].clusters * cb,
                                        cb > 0,
                                ;
                                lemma_prefix_subrange(before, out@, pos, pos + self.dir_contents(i as int).len());
                            },
                            Slot::File { id, size } => {
                                if size > 0 {
                                    lemma_file_clusters_bound(size as int, cb as int);
                                    assert(pos + size <= before.len()) by (nonlinear_arith)
                                        requires
                                            pos == start + self.clusters_before(j) * cb,
                                            self.clusters_before(j + 1) == self.clusters_before(j) + file_clusters(size as int, cb as int),
                                            self.clusters_before(j + 1) <= self.clusters_before(k as int),
                                            before.len() == start + self.clusters_before(k as int) * cb,
                                            file_clusters(size as int, cb as int) * cb >= size,
                                            cb > 0,
                                    ;
                                    lemma_prefix_subrange(before, out@, pos, pos + size);
                                    let w = choose|w: Vec<u8>| call_ensures(copy, (id, size), w) && before.subrange(pos, pos + size) == w@;
                                    assert(call_ensures(copy, (id, size), w) && out@.subrange(pos, pos + size) == w@);
                                }
                            },
                        }
                    } else {
                        assert(j == k);
                    }
                }
            }
            k = k + 1;
        }
        proof {
            lemma_prefix_trans(after_reserved, after_fat1, after_fat2);
            lemma_prefix_trans(after_reserved, after_fat2, out@);
            lemma_prefix_trans(after_fat1, after_fat2, out@);
            assert(after_reserved.subrange(base, base + rbytes.len()) =~= rbytes);
            assert(after_fat1.subrange(base + rbytes.len(), base + rbytes.len() + fbytes.len()) =~= fbytes);
            assert(after_fat2.subrange(base + rbytes.len() + fbytes.len(), base + rbytes.len() + 2 * fbytes.len()) =~= fbytes);
            lemma_prefix_subrange(after_reserved, out@, base, base + rbytes.len());
            lemma_prefix_subrange(after_fat1, out@, base + rbytes.len(), base + rbytes.len() + fbytes.len());
            lemma_prefix_subrange(after_fat2, out@, base + rbytes.len() + fbytes.len(), base + rbytes.len() + 2 * fbytes.len());
            assert forall|i: int| 0 <= i < self.placements.len() implies self.placed(
                out@,
                start,
                #[trigger] self.placements@[i],
                copy,
            ) by {
                lemma_placement_slot(*self, n as int, i);
                let j = choose|j: int|
                    0 <= j < n && (#[trigger] self.slots@[j]) == (Slot::File {
                        id: self.placements@[i].id,
                        size: self.placements@[i].size,
                    }) && self.placements@[i].size > 0 && self.placements@[i].offset
                        == self.geometry.spec_data_offset() + self.clusters_before(j) * self.cb();
                assert(self.slot_written(out@, start, j, copy));
            }
        }
        Ok(())
    }
}

} // verus!
