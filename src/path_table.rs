//! The path table: every directory of the tree in pre-order, each with the
//! 1-based index of its parent's record.

use vstd::prelude::*;
use crate::iso9660::{Identifier, PathTableRecord, MAX_IDENTIFIER_LENGTH};
use crate::lba::{LbaAllocator, sectors_for};
use crate::tree::{DirectoryEntry, Filesystem, valid_name};

verus! {

/// Every directory of the subtree has an address.
pub open spec fn dirs_addressed(d: DirectoryEntry) -> bool
    decreases d,
{
    &&& d.data_lba is Some
    &&& forall|i: int| 0 <= i < d.dirs@.len() ==> dirs_addressed(#[trigger] d.dirs@[i])
}

/// The path table entries of the subtree `d`: `d` itself, whose parent's
/// record is number `parent` and whose own record is number `base`, then
/// the entries of its subdirectories in order.
pub open spec fn entries(d: DirectoryEntry, parent: int, base: int) -> Seq<(DirectoryEntry, int)>
    decreases d,
{
    seq![(d, parent)] + children_entries(d.dirs@, base, base + 1)
}

/// The entries of the subtrees `ds`, all children of record `parent`, the
/// first of them numbered `base`.
pub open spec fn children_entries(ds: Seq<DirectoryEntry>, parent: int, base: int) -> Seq<
    (DirectoryEntry, int),
>
    decreases ds,
{
    if ds.len() == 0 {
        seq![]
    } else {
        let first = children_entries(ds.drop_last(), parent, base);
        first + entries(ds.last(), parent, base + first.len())
    }
}

/// `r` is the record of `e`'s directory, whose parent is record `e.1`.
pub open spec fn record_of(r: PathTableRecord, e: (DirectoryEntry, int)) -> bool {
    &&& r.extended_attribute_record_length == 0
    &&& e.0.data_lba == Some(r.extent_location)
    &&& r.parent_directory_number == e.1
    &&& r.directory_identifier.bytes@ == e.0.name@
}

/// Sum of the encoded lengths of `rs`.
pub open spec fn records_size(rs: Seq<PathTableRecord>) -> nat
    decreases rs.len(),
{
    if rs.len() == 0 {
        0
    } else {
        records_size(rs.drop_last()) + rs.last().spec_extent()
    }
}

/// The path tables' shared content; the Type L and Type M tables differ
/// only in the byte order of their numbers.
#[derive(Debug)]
pub struct PathTable {
    pub size: u32,
    pub records: Vec<PathTableRecord>,
}

/// The most records a table can number in its 16-bit parent fields.
pub const MAX_RECORDS: usize = 65535;

/// The table of the tree `root`: its own record, numbered 1 and its own
/// parent, then the entries of its subdirectories.
pub open spec fn table_of(root: DirectoryEntry, records: Seq<PathTableRecord>) -> bool {
    let es = children_entries(root.dirs@, 1, 2);
    &&& records.len() == 1 + es.len()
    &&& records[0].parent_directory_number == 1
    &&& records[0].extended_attribute_record_length == 0
    &&& root.data_lba == Some(records[0].extent_location)
    &&& records[0].directory_identifier.bytes@ == Seq::<u8>::empty()
    &&& forall|k: int| 0 <= k < es.len() ==> record_of(#[trigger] records[k + 1], es[k])
}

proof fn lemma_entries_len(d: DirectoryEntry, parent: int, base: int)
    ensures
        entries(d, parent, base).len() >= 1,
    decreases d,
{
}

fn aggregate(dir: &DirectoryEntry, parent_ix: u16, records: &mut Vec<PathTableRecord>) -> (ok: bool)
    requires
        dir.wf(),
        valid_name(dir.name@),
        dirs_addressed(*dir),
        1 <= parent_ix <= old(records)@.len(),
    ensures
        ok <==> old(records)@.len() + entries(*dir, parent_ix as int, old(records)@.len() as int + 1).len()
            <= MAX_RECORDS,
        ok ==> final(records)@.len() == old(records)@.len() + entries(
            *dir,
            parent_ix as int,
            old(records)@.len() as int + 1,
        ).len(),
        ok ==> forall|k: int| 0 <= k < old(records)@.len() ==> final(records)@[k] == old(records)@[k],
        ok ==> forall|k: int|
            0 <= k < entries(*dir, parent_ix as int, old(records)@.len() as int + 1).len() ==> record_of(
                #[trigger] final(records)@[old(records)@.len() + k],
                entries(*dir, parent_ix as int, old(records)@.len() as int + 1)[k],
            ),
        ok ==> forall|k: int|
            0 <= k < final(records)@.len() ==> (#[trigger] final(records)@[k]).directory_identifier.bytes@.len() <= MAX_IDENTIFIER_LENGTH || k < old(records)@.len(),
    decreases *dir,
{
    let ghost start = records@.len() as int;
    let ghost es = entries(*dir, parent_ix as int, start + 1);
    if records.len() >= MAX_RECORDS {
        proof {
            lemma_entries_len(*dir, parent_ix as int, start + 1);
        }
        return false;
    }
    let ix = records.len() as u16 + 1;
    let lba = match dir.data_lba {
        Some(l) => l,
        None => 0,
    };
    let id = match Identifier::standard_directory(dir.name.as_slice()) {
        Some(id) => id,
        None => Identifier::root_directory(),
    };
    records.push(
        PathTableRecord {
            extended_attribute_record_length: 0,
            extent_location: lba,
            parent_directory_number: parent_ix,
            directory_identifier: id,
        },
    );
    let mut i: usize = 0;
    while i < dir.dirs.len()
        invariant
            dir.wf(),
            dirs_addressed(*dir),
            ix as int == start + 1,
            records@.len() <= MAX_RECORDS,
            i <= dir.dirs@.len(),
            records@.len() == start + 1 + children_entries(dir.dirs@.take(i as int), ix as int, ix + 1).len(),
            es == entries(*dir, parent_ix as int, start + 1),
            forall|k: int| 0 <= k < start ==> records@[k] == old(records)@[k],
            start == old(records)@.len(),
            forall|k: int| 0 <= k < 1 + children_entries(dir.dirs@.take(i as int), ix as int, ix + 1).len() ==> record_of(
                #[trigger] records@[start + k],
                (seq![(*dir, parent_ix as int)] + children_entries(dir.dirs@.take(i as int), ix as int, ix + 1))[k],
            ),
            forall|k: int|
                0 <= k < records@.len() ==> (#[trigger] records@[k]).directory_identifier.bytes@.len() <= MAX_IDENTIFIER_LENGTH || k < start,
        decreases dir.dirs@.len() - i,
    {
        let ghost before = records@;
        let ghost prev = children_entries(dir.dirs@.take(i as int), ix as int, ix + 1);
        let ghost nxt = children_entries(dir.dirs@.take(i + 1), ix as int, ix + 1);
        proof {
            assert(dir.dirs@.take(i + 1).drop_last() =~= dir.dirs@.take(i as int));
            assert(dir.dirs@.take(i + 1).last() == dir.dirs@[i as int]);
            assert(valid_name(dir.dirs@[i as int].name@));
            assert(dirs_addressed(dir.dirs@[i as int]));
            assert(nxt == prev + entries(dir.dirs@[i as int], ix as int, ix + 1 + prev.len() as int));
        }
        let ok = aggregate(&dir.dirs[i], ix, records);
        if !ok {
            proof {
                lemma_children_entries_prefix(dir.dirs@, i + 1, ix as int, ix + 1);
                assert(es == seq![(*dir, parent_ix as int)] + children_entries(dir.dirs@, ix as int, ix + 1));
            }
            return false;
        }
        proof {
            let e = entries(dir.dirs@[i as int], ix as int, ix + 1 + prev.len() as int);
            let whole = seq![(*dir, parent_ix as int)] + nxt;
            assert forall|k: int| 0 <= k < 1 + nxt.len() implies record_of(
                #[trigger] records@[start + k],
                whole[k],
            ) by {
                if k < 1 + prev.len() {
                    assert(records@[start + k] == before[start + k]);
                    assert(whole[k] == (seq![(*dir, parent_ix as int)] + prev)[k]);
                } else {
                    let m = k - 1 - prev.len();
                    assert(records@[before.len() + m] == records@[start + k]);
                    assert(whole[k] == e[m]);
                }
            }
        }
        i = i + 1;
    }
    proof {
        assert(dir.dirs@.take(i as int) =~= dir.dirs@);
        assert(es == seq![(*dir, parent_ix as int)] + children_entries(dir.dirs@, ix as int, ix + 1));
    }
    true
}

proof fn lemma_children_entries_prefix(ds: Seq<DirectoryEntry>, k: int, parent: int, base: int)
    requires
        0 <= k <= ds.len(),
    ensures
        children_entries(ds.take(k), parent, base).len() <= children_entries(ds, parent, base).len(),
    decreases ds.len(),
{
    if k < ds.len() {
        assert(ds.take(k) =~= ds.drop_last().take(k));
        lemma_children_entries_prefix(ds.drop_last(), k, parent, base);
    } else {
        assert(ds.take(k) =~= ds);
    }
}

impl PathTable {
    /// The path table of an addressed tree, or `None` where it has more
    /// directories than 16-bit record numbers can count.
    pub fn from_filesystem(fs: &Filesystem) -> (r: Option<PathTable>)
        requires
            fs.wf(),
            dirs_addressed(fs.root.dir),
        ensures
            r is Some <==> 1 + children_entries(fs.root.dir.dirs@, 1, 2).len() <= MAX_RECORDS,
            r matches Some(t) ==> table_of(fs.root.dir, t.records@) && t.size == records_size(
                t.records@,
            ),
            r matches Some(t) ==> t.records@.len() <= MAX_RECORDS && forall|k: int|
                0 <= k < t.records@.len() ==> (#[trigger] t.records@[k]).directory_identifier.bytes@.len()
                    <= MAX_IDENTIFIER_LENGTH,
    {
        let root = &fs.root.dir;
        let mut records: Vec<PathTableRecord> = Vec::new();
        let lba = match root.data_lba {
            Some(l) => l,
            None => 0,
        };
        records.push(
            PathTableRecord {
                extended_attribute_record_length: 0,
                extent_location: lba,
                parent_directory_number: 1,
                directory_identifier: Identifier::root_directory(),
            },
        );
        let mut i: usize = 0;
        while i < root.dirs.len()
            invariant
                *root == fs.root.dir,
                root.wf(),
                dirs_addressed(*root),
                records@.len() <= MAX_RECORDS,
                i <= root.dirs@.len(),
                records@.len() == 1 + children_entries(root.dirs@.take(i as int), 1, 2).len(),
                records@[0].parent_directory_number == 1,
                records@[0].extended_attribute_record_length == 0,
                root.data_lba == Some(records@[0].extent_location),
                records@[0].directory_identifier.bytes@ == Seq::<u8>::empty(),
                forall|k: int| 0 <= k < children_entries(root.dirs@.take(i as int), 1, 2).len() ==> record_of(
                    #[trigger] records@[k + 1],
                    children_entries(root.dirs@.take(i as int), 1, 2)[k],
                ),
                forall|k: int|
                    0 <= k < records@.len() ==> (#[trigger] records@[k]).directory_identifier.bytes@.len()
                        <= MAX_IDENTIFIER_LENGTH,
            decreases root.dirs@.len() - i,
        {
            let ghost before = records@;
            let ghost prev = children_entries(root.dirs@.take(i as int), 1, 2);
            let ghost nxt = children_entries(root.dirs@.take(i + 1), 1, 2);
            proof {
                assert(root.dirs@.take(i + 1).drop_last() =~= root.dirs@.take(i as int));
                assert(root.dirs@.take(i + 1).last() == root.dirs@[i as int]);
                assert(valid_name(root.dirs@[i as int].name@));
                assert(dirs_addressed(root.dirs@[i as int]));
                assert(nxt == prev + entries(root.dirs@[i as int], 1, 2 + prev.len() as int));
            }
            let ok = aggregate(&root.dirs[i], 1, &mut records);
            if !ok {
                proof {
                    lemma_children_entries_prefix(root.dirs@, i + 1, 1, 2);
                    assert(before.len() == 1 + prev.len());
                    assert(1 + nxt.len() > MAX_RECORDS);
                    assert(nxt.len() <= children_entries(root.dirs@, 1, 2).len());
                    assert(*root == fs.root.dir);
                }
                return None;
            }
            proof {
                let e = entries(root.dirs@[i as int], 1, 2 + prev.len() as int);
                assert forall|k: int| 0 <= k < nxt.len() implies record_of(
                    #[trigger] records@[k + 1],
                    nxt[k],
                ) by {
                    if k < prev.len() {
                        assert(records@[k + 1] == before[k + 1]);
                    } else {
                        let m = k - prev.len();
                        assert(records@[before.len() + m] == records@[k + 1]);
                        assert(nxt[k] == e[m]);
                    }
                }
            }
            i = i + 1;
        }
        proof {
            assert(root.dirs@.take(i as int) =~= root.dirs@);
        }
        let mut size: u32 = 0;
        let mut j: usize = 0;
        while j < records.len()
            invariant
                j <= records@.len(),
                records@.len() <= MAX_RECORDS,
                size == records_size(records@.take(j as int)),
                size <= 264 * j,
                forall|k: int|
                    0 <= k < records@.len() ==> (#[trigger] records@[k]).directory_identifier.bytes@.len()
                        <= MAX_IDENTIFIER_LENGTH,
            decreases records@.len() - j,
        {
            let ext = records[j].extent();
            proof {
                assert(records@.take(j + 1).drop_last() =~= records@.take(j as int));
            }
            size = size + ext as u32;
            j = j + 1;
        }
        proof {
            assert(records@.take(j as int) =~= records@);
        }
        Some(PathTable { size, records })
    }

    /// Reserves sectors for the Type L table.
    pub fn allocate_l_lba(&self, allocator: &mut LbaAllocator) -> (lba: u32)
        requires
            old(allocator).wf(),
            old(allocator).can_allocate(self.size),
        ensures
            final(allocator).wf(),
            lba == old(allocator).spec_next_lba(),
            final(allocator).spec_sector_size() == old(allocator).spec_sector_size(),
            final(allocator).spec_next_lba() == old(allocator).spec_next_lba() + sectors_for(
                self.size as int,
                old(allocator).spec_sector_size() as int,
            ),
    {
        allocator.allocate(self.size)
    }

    /// Reserves sectors for the Type M table, the same size as Type L.
    pub fn allocate_m_lba(&self, allocator: &mut LbaAllocator) -> (lba: u32)
        requires
            old(allocator).wf(),
            old(allocator).can_allocate(self.size),
        ensures
            final(allocator).wf(),
            lba == old(allocator).spec_next_lba(),
            final(allocator).spec_sector_size() == old(allocator).spec_sector_size(),
            final(allocator).spec_next_lba() == old(allocator).spec_next_lba() + sectors_for(
                self.size as int,
                old(allocator).spec_sector_size() as int,
            ),
    {
        allocator.allocate(self.size)
    }

    /// The records in table order.
    pub fn records(&self) -> (r: &[PathTableRecord])
        ensures
            r@ == self.records@,
    {
        self.records.as_slice()
    }

    /// Encoded size of either table in bytes.
    pub fn size(&self) -> (r: u32)
        ensures
            r == self.size,
    {
        self.size
    }
}

} // verus!
