//! Address assignment: every directory and file of a tree gets the first
//! sector of its extent, in one pre-order pass that sizes each directory
//! from its children before asking for its own address.

use vstd::prelude::*;
use crate::error::Error;
use crate::lba::{LbaAllocator, sectors_for};
use crate::tree::{DirectoryEntry, FileEntry, RootDirectory, valid_name};

verus! {

/// Sectors taken by the data of one file.
pub open spec fn file_sectors(f: FileEntry, ss: int) -> int {
    sectors_for(f.content.spec_extent() as int, ss)
}

/// Sectors taken by the data of a list of files.
pub open spec fn files_span(fs: Seq<FileEntry>, ss: int) -> int
    decreases fs.len(),
{
    if fs.len() == 0 {
        0
    } else {
        files_span(fs.drop_last(), ss) + file_sectors(fs.last(), ss)
    }
}

/// Sectors taken by a whole subtree: the directory's records, then each
/// subdirectory's subtree, then each file's data.
pub open spec fn dir_span(d: DirectoryEntry, ss: int) -> int
    decreases d,
{
    sectors_for(d.spec_data_length() as int, ss) + dirs_span(d.dirs@, ss) + files_span(
        d.files@,
        ss,
    )
}

/// Sectors taken by a list of subtrees.
pub open spec fn dirs_span(ds: Seq<DirectoryEntry>, ss: int) -> int
    decreases ds,
{
    if ds.len() == 0 {
        0
    } else {
        dirs_span(ds.drop_last(), ss) + dir_span(ds.last(), ss)
    }
}

/// Every size that allocation hands to the allocator fits in 32 bits.
pub open spec fn sizes_fit(d: DirectoryEntry) -> bool
    decreases d,
{
    &&& d.spec_data_length() <= u32::MAX
    &&& forall|j: int|
        0 <= j < d.files@.len() ==> (#[trigger] d.files@[j]).content.spec_extent() <= u32::MAX
    &&& forall|i: int| 0 <= i < d.dirs@.len() ==> sizes_fit(#[trigger] d.dirs@[i])
}

/// `a` is `b` with addresses assigned from `start` on: the directory's
/// records first, then each subdirectory's subtree in order, then each
/// file's data in order.
pub open spec fn laid_out(b: DirectoryEntry, a: DirectoryEntry, start: int, ss: int) -> bool
    decreases b,
{
    let own = sectors_for(b.spec_data_length() as int, ss);
    &&& a.name == b.name
    &&& a.data_lba == Some(start as u32)
    &&& a.dirs@.len() == b.dirs@.len()
    &&& a.files@.len() == b.files@.len()
    &&& forall|i: int|
        0 <= i < b.dirs@.len() ==> laid_out(
            b.dirs@[i],
            #[trigger] a.dirs@[i],
            start + own + dirs_span(b.dirs@.take(i), ss),
            ss,
        )
    &&& forall|j: int|
        0 <= j < b.files@.len() ==> (#[trigger] a.files@[j]).name == b.files@[j].name
            && a.files@[j].content == b.files@[j].content && a.files@[j].data_lba == Some(
            (start + own + dirs_span(b.dirs@, ss) + files_span(b.files@.take(j), ss)) as u32,
        )
}

pub proof fn lemma_sectors_nonneg(size: int, ss: int)
    requires
        size >= 0,
        ss > 0,
    ensures
        sectors_for(size, ss) >= 0,
{
    assert((size + ss - 1) / ss >= 0) by (nonlinear_arith)
        requires
            size >= 0,
            ss > 0,
    ;
}

pub proof fn lemma_files_span_prefix(fs: Seq<FileEntry>, k: int, ss: int)
    requires
        0 <= k <= fs.len(),
        ss > 0,
    ensures
        0 <= files_span(fs.take(k), ss) <= files_span(fs, ss),
    decreases fs.len(),
{
    if fs.len() > 0 {
        lemma_sectors_nonneg(fs.last().content.spec_extent() as int, ss);
        if k < fs.len() {
            assert(fs.take(k) =~= fs.drop_last().take(k));
            lemma_files_span_prefix(fs.drop_last(), k, ss);
        } else {
            assert(fs.take(k) =~= fs);
            lemma_files_span_prefix(fs.drop_last(), k - 1, ss);
            assert(fs.drop_last().take(k - 1) =~= fs.drop_last());
        }
    } else {
        assert(fs.take(k) =~= fs);
    }
}

pub proof fn lemma_span_nonneg(d: DirectoryEntry, ss: int)
    requires
        ss > 0,
    ensures
        dir_span(d, ss) >= 0,
    decreases d,
{
    lemma_sectors_nonneg(d.spec_data_length() as int, ss);
    lemma_dirs_span_prefix(d.dirs@, 0, ss);
    lemma_files_span_prefix(d.files@, 0, ss);
}

pub proof fn lemma_dirs_span_prefix(ds: Seq<DirectoryEntry>, k: int, ss: int)
    requires
        0 <= k <= ds.len(),
        ss > 0,
    ensures
        0 <= dirs_span(ds.take(k), ss) <= dirs_span(ds, ss),
    decreases ds, 0int,
{
    if ds.len() > 0 {
        lemma_span_nonneg(ds.last(), ss);
        if k < ds.len() {
            assert(ds.take(k) =~= ds.drop_last().take(k));
            lemma_dirs_span_prefix(ds.drop_last(), k, ss);
        } else {
            assert(ds.take(k) =~= ds);
            lemma_dirs_span_prefix(ds.drop_last(), k - 1, ss);
            assert(ds.drop_last().take(k - 1) =~= ds.drop_last());
        }
    } else {
        assert(ds.take(k) =~= ds);
    }
}

impl DirectoryEntry {
    /// Assigns addresses to this subtree from `allocator`'s next address on:
    /// first this directory, sized by its children's records, then each
    /// subdirectory's subtree, then each file. Fails where a size or an
    /// address would not fit in 32 bits.
    pub fn allocate_lbas(&mut self, allocator: &mut LbaAllocator) -> (r: Result<(), Error>)
        requires
            old(self).wf(),
            old(allocator).wf(),
        ensures
            final(allocator).wf(),
            final(allocator).spec_sector_size() == old(allocator).spec_sector_size(),
            r is Ok <==> sizes_fit(*old(self)) && old(allocator).spec_next_lba() + dir_span(
                *old(self),
                old(allocator).spec_sector_size() as int,
            ) <= u32::MAX,
            r is Err ==> r == Err::<(), Error>(Error::ImageTooLarge),
            r is Ok ==> final(self).wf() && laid_out(
                *old(self),
                *final(self),
                old(allocator).spec_next_lba() as int,
                old(allocator).spec_sector_size() as int,
            ) && final(allocator).spec_next_lba() == old(allocator).spec_next_lba() + dir_span(
                *old(self),
                old(allocator).spec_sector_size() as int,
            ),
        decreases *old(self),
    {
        let ghost b = *self;
        let ghost ss = allocator.spec_sector_size() as int;
        let ghost start = allocator.spec_next_lba() as int;
        proof {
            lemma_dirs_span_prefix(b.dirs@, 0, ss);
            lemma_files_span_prefix(b.files@, 0, ss);
            lemma_sectors_nonneg(b.spec_data_length() as int, ss);
        }
        let len = match self.data_length() {
            Some(n) => n,
            None => {
                return Err(Error::ImageTooLarge);
            },
        };
        if !allocator.fits(len) {
            return Err(Error::ImageTooLarge);
        }
        let lba = allocator.allocate(len);
        self.data_lba = Some(lba);
        let ghost own = sectors_for(b.spec_data_length() as int, ss);
        let mut i: usize = 0;
        while i < self.dirs.len()
            invariant
                allocator.wf(),
                allocator.spec_sector_size() as int == ss,
                ss == old(allocator).spec_sector_size() as int,
                start == old(allocator).spec_next_lba() as int,
                b == *old(self),
                ss > 0,
                b.wf(),
                self.name == b.name,
                self.files == b.files,
                self.data_lba == Some(start as u32),
                self.dirs@.len() == b.dirs@.len(),
                i <= b.dirs@.len(),
                allocator.spec_next_lba() == start + own + dirs_span(b.dirs@.take(i as int), ss),
                own == sectors_for(b.spec_data_length() as int, ss),
                start + own <= u32::MAX,
                b.spec_data_length() <= u32::MAX,
                forall|k: int| i <= k < b.dirs@.len() ==> self.dirs@[k] == b.dirs@[k],
                forall|k: int|
                    0 <= k < i ==> laid_out(
                        b.dirs@[k],
                        #[trigger] self.dirs@[k],
                        start + own + dirs_span(b.dirs@.take(k), ss),
                        ss,
                    ) && self.dirs@[k].wf() && sizes_fit(b.dirs@[k]),
            decreases b.dirs@.len() - i,
        {
            let ghost at = allocator.spec_next_lba() as int;
            proof {
                assert(b.dirs@.take(i + 1).drop_last() =~= b.dirs@.take(i as int));
                lemma_dirs_span_prefix(b.dirs@, i + 1, ss);
                lemma_files_span_prefix(b.files@, 0, ss);
                assert(decreases_to!(b => b.dirs));
                assert(decreases_to!(b.dirs => b.dirs[i as int]));
                assert(valid_name(b.dirs@[i as int].name@));
                assert(b.dirs@[i as int].wf());
            }
            let res = self.dirs[i].allocate_lbas(allocator);
            if res.is_err() {
                return Err(Error::ImageTooLarge);
            }
            i = i + 1;
        }
        assert(b.dirs@.take(i as int) =~= b.dirs@);
        let ghost done_dirs = self.dirs;
        let mut j: usize = 0;
        while j < self.files.len()
            invariant
                allocator.wf(),
                allocator.spec_sector_size() as int == ss,
                ss == old(allocator).spec_sector_size() as int,
                start == old(allocator).spec_next_lba() as int,
                b == *old(self),
                ss > 0,
                b.wf(),
                self.name == b.name,
                self.dirs == done_dirs,
                done_dirs@.len() == b.dirs@.len(),
                own == sectors_for(b.spec_data_length() as int, ss),
                b.spec_data_length() <= u32::MAX,
                forall|k: int|
                    0 <= k < b.dirs@.len() ==> laid_out(
                        b.dirs@[k],
                        #[trigger] done_dirs@[k],
                        start + own + dirs_span(b.dirs@.take(k), ss),
                        ss,
                    ) && done_dirs@[k].wf() && sizes_fit(b.dirs@[k]),
                self.data_lba == Some(start as u32),
                self.files@.len() == b.files@.len(),
                j <= b.files@.len(),
                allocator.spec_next_lba() == start + own + dirs_span(b.dirs@, ss) + files_span(b.files@.take(j as int), ss),
                forall|k: int| j <= k < b.files@.len() ==> self.files@[k] == b.files@[k],
                forall|k: int|
                    0 <= k < j ==> (#[trigger] self.files@[k]).name == b.files@[k].name
                        && self.files@[k].content == b.files@[k].content && self.files@[k].data_lba == Some(
                        (start + own + dirs_span(b.dirs@, ss) + files_span(b.files@.take(k), ss)) as u32,
                    ) && b.files@[k].content.spec_extent() <= u32::MAX,
            decreases b.files@.len() - j,
        {
            proof {
                assert(b.files@.take(j + 1).drop_last() =~= b.files@.take(j as int));
                lemma_files_span_prefix(b.files@, j + 1, ss);
            }
            let ext = self.files[j].content.extent();
            if ext > u32::MAX as u64 {
                return Err(Error::ImageTooLarge);
            }
            if !allocator.fits(ext as u32) {
                return Err(Error::ImageTooLarge);
            }
            let lba = allocator.allocate(ext as u32);
            self.files[j].data_lba = Some(lba);
            j = j + 1;
        }
        assert(b.files@.take(j as int) =~= b.files@);
        proof {
            assert forall|k: int| 0 <= k < b.files@.len() implies (#[trigger] b.files@[k]).content.spec_extent() <= u32::MAX by {
                assert(self.files@[k].name == b.files@[k].name);
            }
            assert forall|k: int| 0 <= k < b.dirs@.len() implies sizes_fit(#[trigger] b.dirs@[k]) by {
                assert(done_dirs@[k].wf());
            }
            assert(sizes_fit(b));
            assert(laid_out(b, *self, start, ss));
            assert(self.wf());
        }
        Ok(())
    }
}

impl RootDirectory {
    /// Assigns addresses to the whole tree; see
    /// [`DirectoryEntry::allocate_lbas`].
    pub fn allocate_lbas(&mut self, allocator: &mut LbaAllocator) -> (r: Result<(), Error>)
        requires
            old(self).wf(),
            old(allocator).wf(),
        ensures
            final(allocator).wf(),
            final(allocator).spec_sector_size() == old(allocator).spec_sector_size(),
            r is Ok <==> sizes_fit(old(self).dir) && old(allocator).spec_next_lba() + dir_span(
                old(self).dir,
                old(allocator).spec_sector_size() as int,
            ) <= u32::MAX,
            r is Err ==> r == Err::<(), Error>(Error::ImageTooLarge),
            r is Ok ==> final(self).wf() && laid_out(
                old(self).dir,
                final(self).dir,
                old(allocator).spec_next_lba() as int,
                old(allocator).spec_sector_size() as int,
            ) && final(allocator).spec_next_lba() == old(allocator).spec_next_lba() + dir_span(
                old(self).dir,
                old(allocator).spec_sector_size() as int,
            ),
    {
        let r = self.dir.allocate_lbas(allocator);
        proof {
            if r is Ok {
                assert(self.dir.name == old(self).dir.name);
            }
        }
        r
    }
}

} // verus!
