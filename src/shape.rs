//! Trees that differ only in their addresses: what address assignment
//! leaves unchanged.

use vstd::prelude::*;
use crate::iso9660::{path_record_extent, PathTableRecord};
use crate::layout::{laid_out, sizes_fit};
use crate::path_table::{children_entries, entries, records_size, table_of, record_of};
use crate::tree::{DirectoryEntry, FileEntry, dirs_extent, files_extent};
use crate::writer::encodable;

verus! {

/// `a` and `b` have the same names, contents and structure.
pub open spec fn same_shape(a: DirectoryEntry, b: DirectoryEntry) -> bool
    decreases b,
{
    &&& a.name == b.name
    &&& a.files@.len() == b.files@.len()
    &&& forall|j: int|
        0 <= j < b.files@.len() ==> (#[trigger] a.files@[j]).name == b.files@[j].name
            && a.files@[j].content == b.files@[j].content
    &&& a.dirs@.len() == b.dirs@.len()
    &&& forall|i: int| 0 <= i < b.dirs@.len() ==> same_shape(#[trigger] a.dirs@[i], b.dirs@[i])
}

/// Sum of the path table record lengths of `es`.
pub open spec fn entries_size(es: Seq<(DirectoryEntry, int)>) -> nat
    decreases es.len(),
{
    if es.len() == 0 {
        0
    } else {
        entries_size(es.drop_last()) + path_record_extent(es.last().0.name@.len())
    }
}

/// Number of records in the path table of the tree `root`.
pub open spec fn table_count(root: DirectoryEntry) -> nat {
    1 + children_entries(root.dirs@, 1, 2).len()
}

/// Encoded size of the path table of the tree `root`.
pub open spec fn table_size(root: DirectoryEntry) -> nat {
    path_record_extent(0) + entries_size(children_entries(root.dirs@, 1, 2))
}

pub proof fn lemma_laid_out_same_shape(b: DirectoryEntry, a: DirectoryEntry, start: int, ss: int)
    requires
        laid_out(b, a, start, ss),
    ensures
        same_shape(a, b),
    decreases b,
{
    assert forall|i: int| 0 <= i < b.dirs@.len() implies same_shape(#[trigger] a.dirs@[i], b.dirs@[i]) by {
        let own = crate::lba::sectors_for(b.spec_data_length() as int, ss);
        lemma_laid_out_same_shape(
            b.dirs@[i],
            a.dirs@[i],
            start + own + crate::layout::dirs_span(b.dirs@.take(i), ss),
            ss,
        );
    }
}

proof fn lemma_files_extent_same(x: Seq<FileEntry>, y: Seq<FileEntry>)
    requires
        x.len() == y.len(),
        forall|j: int| 0 <= j < x.len() ==> (#[trigger] x[j]).name == y[j].name,
    ensures
        files_extent(x) == files_extent(y),
    decreases x.len(),
{
    if x.len() > 0 {
        lemma_files_extent_same(x.drop_last(), y.drop_last());
    }
}

proof fn lemma_dirs_extent_same(x: Seq<DirectoryEntry>, y: Seq<DirectoryEntry>)
    requires
        x.len() == y.len(),
        forall|j: int| 0 <= j < x.len() ==> (#[trigger] x[j]).name == y[j].name,
    ensures
        dirs_extent(x) == dirs_extent(y),
    decreases x.len(),
{
    if x.len() > 0 {
        lemma_dirs_extent_same(x.drop_last(), y.drop_last());
    }
}

/// Trees of one shape have the same data lengths, and fit and encode alike.
pub proof fn lemma_same_shape_sizes(a: DirectoryEntry, b: DirectoryEntry)
    requires
        same_shape(a, b),
    ensures
        a.spec_data_length() == b.spec_data_length(),
        sizes_fit(a) == sizes_fit(b),
        encodable(a) == encodable(b),
    decreases b,
{
    assert forall|i: int| 0 <= i < b.dirs@.len() implies (#[trigger] a.dirs@[i]).name == b.dirs@[i].name by {
        assert(same_shape(a.dirs@[i], b.dirs@[i]));
    }
    lemma_files_extent_same(a.files@, b.files@);
    lemma_dirs_extent_same(a.dirs@, b.dirs@);
    assert forall|i: int| 0 <= i < b.dirs@.len() implies sizes_fit(#[trigger] a.dirs@[i]) == sizes_fit(b.dirs@[i])
        && encodable(a.dirs@[i]) == encodable(b.dirs@[i]) by {
        lemma_same_shape_sizes(a.dirs@[i], b.dirs@[i]);
    }
    if sizes_fit(b) {
        assert forall|j: int| 0 <= j < a.files@.len() implies (#[trigger] a.files@[j]).content.spec_extent() <= u32::MAX by {
            assert(b.files@[j].content.spec_extent() <= u32::MAX);
        }
    }
    if sizes_fit(a) {
        assert forall|j: int| 0 <= j < b.files@.len() implies (#[trigger] b.files@[j]).content.spec_extent() <= u32::MAX by {
            assert(a.files@[j].content == b.files@[j].content);
        }
        assert forall|i: int| 0 <= i < b.dirs@.len() implies sizes_fit(#[trigger] b.dirs@[i]) by {
            assert(sizes_fit(a.dirs@[i]));
        }
    }
    if encodable(b) {
        assert forall|j: int| 0 <= j < a.files@.len() implies (#[trigger] a.files@[j]).name@.len() <= 221 by {
            assert(b.files@[j].name@.len() <= 221);
        }
    }
    if encodable(a) {
        assert forall|j: int| 0 <= j < b.files@.len() implies (#[trigger] b.files@[j]).name@.len() <= 221 by {
            assert(a.files@[j].name@.len() <= 221);
        }
        assert forall|i: int| 0 <= i < b.dirs@.len() implies (#[trigger] b.dirs@[i]).name@.len() <= 221
            && encodable(b.dirs@[i]) by {
            assert(encodable(a.dirs@[i]));
        }
    }
}

proof fn lemma_entries_size_concat(x: Seq<(DirectoryEntry, int)>, y: Seq<(DirectoryEntry, int)>)
    ensures
        entries_size(x + y) == entries_size(x) + entries_size(y),
    decreases y.len(),
{
    if y.len() == 0 {
        assert(x + y =~= x);
    } else {
        assert((x + y).drop_last() =~= x + y.drop_last());
        lemma_entries_size_concat(x, y.drop_last());
    }
}

/// Trees of one shape have path tables of one length and one size.
pub proof fn lemma_entries_same(a: DirectoryEntry, b: DirectoryEntry, p: int, base: int)
    requires
        same_shape(a, b),
    ensures
        entries(a, p, base).len() == entries(b, p, base).len(),
        entries_size(entries(a, p, base)) == entries_size(entries(b, p, base)),
    decreases b,
{
    lemma_children_same(a.dirs@, b.dirs@, base, base + 1);
    lemma_entries_size_concat(seq![(a, p)], children_entries(a.dirs@, base, base + 1));
    lemma_entries_size_concat(seq![(b, p)], children_entries(b.dirs@, base, base + 1));
    assert(seq![(a, p)].drop_last() =~= Seq::<(DirectoryEntry, int)>::empty());
    assert(seq![(b, p)].drop_last() =~= Seq::<(DirectoryEntry, int)>::empty());
}

pub proof fn lemma_children_same(xs: Seq<DirectoryEntry>, ys: Seq<DirectoryEntry>, p: int, base: int)
    requires
        xs.len() == ys.len(),
        forall|i: int| 0 <= i < ys.len() ==> same_shape(#[trigger] xs[i], ys[i]),
    ensures
        children_entries(xs, p, base).len() == children_entries(ys, p, base).len(),
        entries_size(children_entries(xs, p, base)) == entries_size(children_entries(ys, p, base)),
    decreases ys,
{
    if ys.len() > 0 {
        lemma_children_same(xs.drop_last(), ys.drop_last(), p, base);
        let fx = children_entries(xs.drop_last(), p, base);
        let fy = children_entries(ys.drop_last(), p, base);
        lemma_entries_same(xs.last(), ys.last(), p, base + fx.len());
        lemma_entries_size_concat(fx, entries(xs.last(), p, base + fx.len()));
        lemma_entries_size_concat(fy, entries(ys.last(), p, base + fy.len()));
    }
}

/// The records of a path table of `root` add up to its table size.
pub proof fn lemma_table_size(root: DirectoryEntry, recs: Seq<PathTableRecord>)
    requires
        table_of(root, recs),
    ensures
        records_size(recs) == table_size(root),
        recs.len() == table_count(root),
{
    let es = children_entries(root.dirs@, 1, 2);
    assert forall|k: int| 0 <= k <= es.len() implies records_size(#[trigger] recs.take(k + 1))
        == path_record_extent(0) + entries_size(es.take(k)) by {
        lemma_table_prefix(root, recs, k);
    }
    assert(recs.take(es.len() as int + 1) =~= recs);
    assert(es.take(es.len() as int) =~= es);
}

proof fn lemma_table_prefix(root: DirectoryEntry, recs: Seq<PathTableRecord>, k: int)
    requires
        table_of(root, recs),
        0 <= k <= children_entries(root.dirs@, 1, 2).len(),
    ensures
        records_size(recs.take(k + 1)) == path_record_extent(0) + entries_size(
            children_entries(root.dirs@, 1, 2).take(k),
        ),
    decreases k,
{
    let es = children_entries(root.dirs@, 1, 2);
    if k == 0 {
        assert(recs.take(1).drop_last() =~= Seq::<PathTableRecord>::empty());
        assert(recs.take(1).last() == recs[0]);
        assert(recs[0].directory_identifier.bytes@.len() == 0);
        assert(records_size(Seq::<PathTableRecord>::empty()) == 0);
        assert(records_size(recs.take(1)) == records_size(recs.take(1).drop_last())
            + recs.take(1).last().spec_extent());
        assert(entries_size(es.take(0)) == 0);
        assert(es.take(0) =~= Seq::<(DirectoryEntry, int)>::empty());
    } else {
        lemma_table_prefix(root, recs, k - 1);
        assert(recs.take(k + 1).drop_last() =~= recs.take(k));
        assert(es.take(k).drop_last() =~= es.take(k - 1));
        assert(record_of(recs[(k - 1) + 1], es[k - 1]));
        assert(recs.take(k + 1).last() == recs[k]);
        assert(es.take(k).last() == es[k - 1]);
        assert(records_size(recs.take(k + 1)) == records_size(recs.take(k)) + recs[k].spec_extent());
        assert(entries_size(es.take(k)) == entries_size(es.take(k - 1)) + path_record_extent(
            es[k - 1].0.name@.len(),
        ));
        assert(recs[k].directory_identifier.bytes@ == es[k - 1].0.name@);
    }
}

} // verus!
