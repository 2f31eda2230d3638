//! Properties that relate several operations of the library.

use vstd::prelude::*;
use crate::layout::{dir_span, dirs_span, files_span, laid_out};
use crate::shape::{lemma_laid_out_same_shape, lemma_same_shape_sizes, same_shape};
use crate::lba::{LbaAllocator, sectors_for};
use crate::path_table::{children_entries, entries, table_of};
use crate::iso9660::PathTableRecord;
use crate::name::bounded_name;
use crate::tree::{
    DirectoryEntry, FileEntry, FileEntryContent, OnFileConflict, bounded_names, chain,
    has_file_named, inserted, merged, record_extent,
    resolved,
};

verus! {

/// Two trees agree in every name, address and file.
pub open spec fn same_layout(x: DirectoryEntry, y: DirectoryEntry) -> bool
    decreases x,
{
    &&& x.name == y.name
    &&& x.data_lba == y.data_lba
    &&& x.files@ == y.files@
    &&& x.dirs@.len() == y.dirs@.len()
    &&& forall|i: int| 0 <= i < x.dirs@.len() ==> same_layout(#[trigger] x.dirs@[i], y.dirs@[i])
}

/// Address assignment is a function of the tree, the first address and the
/// sector size: two assignments of one tree from one address agree in
/// every address.
pub proof fn lemma_allocation_deterministic(
    b: DirectoryEntry,
    a1: DirectoryEntry,
    a2: DirectoryEntry,
    start: int,
    ss: int,
)
    requires
        laid_out(b, a1, start, ss),
        laid_out(b, a2, start, ss),
    ensures
        same_layout(a1, a2),
    decreases b,
{
    let own = sectors_for(b.spec_data_length() as int, ss);
    assert forall|i: int| 0 <= i < a1.dirs@.len() implies same_layout(#[trigger] a1.dirs@[i], a2.dirs@[i]) by {
        lemma_allocation_deterministic(
            b.dirs@[i],
            a1.dirs@[i],
            a2.dirs@[i],
            start + own + dirs_span(b.dirs@.take(i), ss),
            ss,
        );
    }
    assert forall|j: int| 0 <= j < a1.files@.len() implies a1.files@[j] == a2.files@[j] by {
        assert(a1.files@[j].name == b.files@[j].name);
        assert(a2.files@[j].name == b.files@[j].name);
    }
    assert(a1.files@ =~= a2.files@);
}

/// Two consecutive allocations never overlap: the second address is at
/// least the first plus the sectors of the first extent, so addresses never
/// decrease.
pub proof fn lemma_allocations_monotonic(
    a0: LbaAllocator,
    a1: LbaAllocator,
    a2: LbaAllocator,
    s1: u32,
    s2: u32,
    lba1: u32,
    lba2: u32,
)
    requires
        a0.wf(),
        lba1 == a0.spec_next_lba(),
        a1.spec_sector_size() == a0.spec_sector_size(),
        a1.spec_next_lba() == a0.spec_next_lba() + sectors_for(
            s1 as int,
            a0.spec_sector_size() as int,
        ),
        lba2 == a1.spec_next_lba(),
        a2.spec_sector_size() == a1.spec_sector_size(),
        a2.spec_next_lba() == a1.spec_next_lba() + sectors_for(
            s2 as int,
            a1.spec_sector_size() as int,
        ),
    ensures
        lba2 >= lba1 + sectors_for(s1 as int, a0.spec_sector_size() as int),
        lba1 <= lba2 <= a2.spec_next_lba(),
{
    crate::layout::lemma_sectors_nonneg(s1 as int, a0.spec_sector_size() as int);
    crate::layout::lemma_sectors_nonneg(s2 as int, a0.spec_sector_size() as int);
}

proof fn lemma_entries_parents(d: DirectoryEntry, parent: int, base: int)
    requires
        1 <= parent < base,
    ensures
        forall|m: int|
            0 <= m < entries(d, parent, base).len() ==> 1 <= (#[trigger] entries(d, parent, base)[m]).1
                < base + m,
    decreases d,
{
    lemma_children_parents(d.dirs@, base, base + 1);
    let cs = children_entries(d.dirs@, base, base + 1);
    assert forall|m: int| 0 <= m < entries(d, parent, base).len() implies 1 <= (#[trigger] entries(
        d,
        parent,
        base,
    )[m]).1 < base + m by {
        if m > 0 {
            assert(entries(d, parent, base)[m] == cs[m - 1]);
        }
    }
}

proof fn lemma_children_parents(ds: Seq<DirectoryEntry>, parent: int, base: int)
    requires
        1 <= parent < base,
    ensures
        forall|m: int|
            0 <= m < children_entries(ds, parent, base).len() ==> 1 <= (#[trigger] children_entries(
                ds,
                parent,
                base,
            )[m]).1 < base + m,
    decreases ds,
{
    if ds.len() > 0 {
        let first = children_entries(ds.drop_last(), parent, base);
        lemma_children_parents(ds.drop_last(), parent, base);
        lemma_entries_parents(ds.last(), parent, base + first.len());
        let e = entries(ds.last(), parent, base + first.len());
        assert forall|m: int| 0 <= m < children_entries(ds, parent, base).len() implies 1 <= (
        #[trigger] children_entries(ds, parent, base)[m]).1 < base + m by {
            if m < first.len() {
                assert(children_entries(ds, parent, base)[m] == first[m]);
            } else {
                assert(children_entries(ds, parent, base)[m] == e[m - first.len()]);
            }
        }
    }
}

/// In a path table every record but the first names as its parent a
/// record that comes before it; the first is its own parent.
pub proof fn lemma_path_table_parents_precede(root: DirectoryEntry, records: Seq<PathTableRecord>)
    requires
        table_of(root, records),
    ensures
        records[0].parent_directory_number == 1,
        forall|k: int|
            1 <= k < records.len() ==> 1 <= (#[trigger] records[k]).parent_directory_number <= k,
{
    let es = children_entries(root.dirs@, 1, 2);
    lemma_children_parents(root.dirs@, 1, 2);
    assert forall|k: int| 1 <= k < records.len() implies 1 <= (
    #[trigger] records[k]).parent_directory_number <= k by {
        assert(crate::path_table::record_of(records[(k - 1) + 1], es[k - 1]));
    }
}

/// Where both merged directories hold a file of one name, the result holds
/// exactly one file of that name: the incoming one under `Overwrite`, the
/// existing one under `Ignore`, and under `Handler` what the handler
/// returned, unchanged, when given the existing and the incoming file.
pub proof fn lemma_conflict_policy<F: Fn(FileEntry, FileEntry) -> FileEntry>(
    a: DirectoryEntry,
    b: DirectoryEntry,
    r: DirectoryEntry,
    policy: OnFileConflict<F>,
    i: int,
    j: int,
)
    requires
        policy.ready(),
        merged(a, b, r, policy),
        r.wf(),
        0 <= i < a.files@.len(),
        0 <= j < b.files@.len(),
        a.files@[i].name@ == b.files@[j].name@,
    ensures
        has_file_named(r.files@, a.files@[i].name@),
        forall|k: int|
            0 <= k < r.files@.len() && #[trigger] r.files@[k].name@ == a.files@[i].name@ ==> {
                &&& policy is Overwrite ==> r.files@[k] == b.files@[j]
                &&& policy is Ignore ==> r.files@[k] == a.files@[i]
                &&& policy matches OnFileConflict::Handler(h) ==> call_ensures(
                    h,
                    (a.files@[i], b.files@[j]),
                    r.files@[k],
                )
            },
{
    let k0 = choose|k: int| 0 <= k < r.files@.len() && #[trigger] resolved(a.files@[i], b.files@[j], r.files@[k], policy);
    crate::tree::lemma_resolved_name(a.files@[i], b.files@[j], r.files@[k0], policy);
    assert forall|k: int|
        0 <= k < r.files@.len() && #[trigger] r.files@[k].name@ == a.files@[i].name@ implies k == k0 by {
    }
}

/// Merging a directory that holds one file into an empty directory adds
/// exactly that file's record extent to the data length.
pub proof fn lemma_insert_into_empty_size<F: Fn(FileEntry, FileEntry) -> FileEntry>(
    a: DirectoryEntry,
    b: DirectoryEntry,
    r: DirectoryEntry,
    policy: OnFileConflict<F>,
)
    requires
        a.files@.len() == 0,
        a.dirs@.len() == 0,
        b.files@.len() == 1,
        b.dirs@.len() == 0,
        merged(a, b, r, policy),
        r.wf(),
    ensures
        r.spec_data_length() == a.spec_data_length() + record_extent(b.files@[0].name@.len()),
{
    assert(!has_file_named(a.files@, b.files@[0].name@));
    let k = choose|k: int| 0 <= k < r.files@.len() && #[trigger] r.files@[k] == b.files@[0];
    assert forall|m: int| 0 <= m < r.files@.len() implies #[trigger] r.files@[m].name@ == b.files@[0].name@ by {
        assert(has_file_named(b.files@, r.files@[m].name@));
    }
    assert(r.files@.len() == 1) by {
        if r.files@.len() > 1 {
            let other = if k == 0 { 1int } else { 0int };
            assert(r.files@[other].name@ == b.files@[0].name@);
        }
    }
    assert(r.files@ =~= seq![b.files@[0]]);
    assert(r.dirs@.len() == 0) by {
        if r.dirs@.len() > 0 {
            assert(crate::tree::has_dir_named(a.dirs@, r.dirs@[0].name@) || crate::tree::has_dir_named(b.dirs@, r.dirs@[0].name@));
        }
    }
    assert(r.files@.drop_last() =~= Seq::<FileEntry>::empty());
    assert(a.files@ =~= Seq::<FileEntry>::empty());
}

/// Putting a file at a one-component path of an empty root adds exactly
/// the record extent of its name to the root's data length.
pub proof fn lemma_insert_file_into_empty_root_size<F: Fn(FileEntry, FileEntry) -> FileEntry>(
    a: DirectoryEntry,
    r: DirectoryEntry,
    parts: Seq<Seq<u8>>,
    content: FileEntryContent,
    policy: OnFileConflict<F>,
)
    requires
        a.files@.len() == 0,
        a.dirs@.len() == 0,
        parts.len() == 1,
        inserted(a, r, parts, content, policy),
        r.wf(),
    ensures
        r.spec_data_length() == a.spec_data_length() + record_extent(
            bounded_name(parts[0]).len(),
        ),
{
    let names = bounded_names(parts);
    let (s, f) = choose|s: DirectoryEntry, f: FileEntry|
        #[trigger] chain(s, names.drop_last(), seq![], seq![f]) && f.name@ == names.last() && f.content
            == content && f.data_lba is None && merged(a, s, r, policy);
    assert(names.drop_last().len() == 0);
    assert(s.files@ == seq![f]);
    assert(s.dirs@.len() == 0);
    lemma_insert_into_empty_size(a, s, r, policy);
}

proof fn lemma_files_span_same(x: Seq<FileEntry>, y: Seq<FileEntry>, ss: int)
    requires
        x.len() == y.len(),
        forall|j: int| 0 <= j < y.len() ==> (#[trigger] x[j]).content == y[j].content,
    ensures
        files_span(x, ss) == files_span(y, ss),
    decreases y.len(),
{
    if y.len() > 0 {
        lemma_files_span_same(x.drop_last(), y.drop_last(), ss);
    }
}

proof fn lemma_span_same(x: DirectoryEntry, y: DirectoryEntry, ss: int)
    requires
        same_shape(x, y),
    ensures
        dir_span(x, ss) == dir_span(y, ss),
    decreases y,
{
    lemma_same_shape_sizes(x, y);
    lemma_dirs_span_same(x.dirs@, y.dirs@, ss);
    lemma_files_span_same(x.files@, y.files@, ss);
}

proof fn lemma_dirs_span_same(xs: Seq<DirectoryEntry>, ys: Seq<DirectoryEntry>, ss: int)
    requires
        xs.len() == ys.len(),
        forall|i: int| 0 <= i < ys.len() ==> same_shape(#[trigger] xs[i], ys[i]),
    ensures
        dirs_span(xs, ss) == dirs_span(ys, ss),
    decreases ys,
{
    if ys.len() > 0 {
        lemma_dirs_span_same(xs.drop_last(), ys.drop_last(), ss);
        lemma_span_same(xs.last(), ys.last(), ss);
    }
}

/// Assigning addresses again to a tree whose addresses were just assigned,
/// from the same first address, leaves every address as it was.
pub proof fn lemma_allocation_round_trip(
    b: DirectoryEntry,
    a1: DirectoryEntry,
    a2: DirectoryEntry,
    start: int,
    ss: int,
)
    requires
        laid_out(b, a1, start, ss),
        laid_out(a1, a2, start, ss),
    ensures
        same_layout(a1, a2),
    decreases b,
{
    lemma_laid_out_same_shape(b, a1, start, ss);
    lemma_same_shape_sizes(a1, b);
    let own = sectors_for(b.spec_data_length() as int, ss);
    assert forall|i: int| 0 <= i <= b.dirs@.len() implies dirs_span(#[trigger] a1.dirs@.take(i), ss)
        == dirs_span(b.dirs@.take(i), ss) by {
        assert forall|q: int| 0 <= q < i implies same_shape(#[trigger] a1.dirs@.take(i)[q], b.dirs@.take(i)[q]) by {
            assert(same_shape(a1.dirs@[q], b.dirs@[q]));
        }
        lemma_dirs_span_same(a1.dirs@.take(i), b.dirs@.take(i), ss);
    }
    assert forall|j: int| 0 <= j <= b.files@.len() implies files_span(#[trigger] a1.files@.take(j), ss)
        == files_span(b.files@.take(j), ss) by {
        assert forall|q: int| 0 <= q < j implies (#[trigger] a1.files@.take(j)[q]).content == b.files@.take(j)[q].content by {
            assert(a1.files@[q].content == b.files@[q].content);
        }
        lemma_files_span_same(a1.files@.take(j), b.files@.take(j), ss);
    }
    assert(a1.dirs@.take(a1.dirs@.len() as int) =~= a1.dirs@);
    assert(b.dirs@.take(b.dirs@.len() as int) =~= b.dirs@);
    assert forall|i: int| 0 <= i < a1.dirs@.len() implies same_layout(#[trigger] a1.dirs@[i], a2.dirs@[i]) by {
        assert(dirs_span(a1.dirs@.take(i), ss) == dirs_span(b.dirs@.take(i), ss));
        lemma_allocation_round_trip(
            b.dirs@[i],
            a1.dirs@[i],
            a2.dirs@[i],
            start + own + dirs_span(b.dirs@.take(i), ss),
            ss,
        );
    }
    assert forall|j: int| 0 <= j < a1.files@.len() implies a1.files@[j] == a2.files@[j] by {
        assert(files_span(a1.files@.take(j), ss) == files_span(b.files@.take(j), ss));
    }
    assert(a1.files@ =~= a2.files@);
}

} // verus!
