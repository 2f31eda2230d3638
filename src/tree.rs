//! The in-memory filesystem tree: directories and files, merging of two
//! trees under a conflict policy, insertion at a path and address
//! assignment.

use vstd::prelude::*;
use crate::error::Error;
use crate::name::{bounded_name, to_bounded_name};
use crate::path::{is_parent, names_of, path_names};
use vstd::string::StringSliceAdditionalSpecFns;
use vstd::utf8::{encode_utf8, valid_utf8};

verus! {

/// Bytes taken by the `.` and `..` records at the start of every directory.
pub const DOT_ENTRIES_LENGTH: u32 = 68;

/// Longest name of a file or directory, in bytes.
pub const MAX_NAME_LENGTH: usize = 255;

/// Encoded length of a directory record whose identifier has `name_len`
/// bytes: a 33-byte header, the identifier, and a pad byte that keeps the
/// record length even.
pub open spec fn record_extent(name_len: nat) -> nat {
    33 + name_len + if name_len % 2 == 0 { 1nat } else { 0nat }
}

pub open spec fn valid_name(n: Seq<u8>) -> bool {
    n.len() <= MAX_NAME_LENGTH
}

/// Where the bytes of a file come from. A value is never changed once made.
#[derive(Debug)]
pub enum FileEntryContent {
    /// A file of the host, known by the handle under which the caller keeps
    /// it open, and its length in bytes.
    Host { handle: u64, length: u64 },
    /// Bytes held in memory.
    InMemory(Vec<u8>),
}

impl FileEntryContent {
    /// Length of the content in bytes.
    pub open spec fn spec_extent(&self) -> nat {
        match self {
            FileEntryContent::Host { length, .. } => *length as nat,
            FileEntryContent::InMemory(v) => v@.len(),
        }
    }

    pub fn from_bytes(bytes: Vec<u8>) -> (r: Self)
        ensures
            r == FileEntryContent::InMemory(bytes),
    {
        FileEntryContent::InMemory(bytes)
    }

    pub fn from_host(handle: u64, length: u64) -> (r: Self)
        ensures
            r == (FileEntryContent::Host { handle, length }),
    {
        FileEntryContent::Host { handle, length }
    }

    pub fn extent(&self) -> (r: u64)
        ensures
            r == self.spec_extent(),
    {
        match self {
            FileEntryContent::Host { length, .. } => *length,
            FileEntryContent::InMemory(v) => {
                let n: usize = v.len();
                n as u64
            },
        }
    }
}

/// A file of the tree.
#[derive(Debug)]
pub struct FileEntry {
    /// First sector of the file's data, once addresses are assigned.
    pub data_lba: Option<u32>,
    pub name: Vec<u8>,
    pub content: FileEntryContent,
}

/// The bytes of `s` as a name.
fn name_of(s: &str) -> (r: Vec<u8>)
    ensures
        r@ == bounded_name(s.spec_bytes()),
        valid_name(r@),
{
    proof {
        vstd::utf8::encode_utf8_valid_utf8(s@);
        crate::name::lemma_bounded_name_len(s.spec_bytes());
    }
    match to_bounded_name(s.as_bytes()) {
        Some(n) => n,
        None => Vec::new(),
    }
}

impl FileEntry {
    /// A file named `name` (cut at a character boundary to at most 255
    /// bytes) with no address yet.
    pub fn new(name: &str, content: FileEntryContent) -> (r: Self)
        ensures
            r.data_lba is None,
            r.content == content,
            r.name@ == bounded_name(name.spec_bytes()),
            valid_name(r.name@),
    {
        FileEntry { data_lba: None, name: name_of(name), content }
    }

    pub fn name(&self) -> (r: &[u8])
        ensures
            r@ == self.name@,
    {
        self.name.as_slice()
    }

    pub fn content(&self) -> (r: &FileEntryContent)
        ensures
            *r == self.content,
    {
        &self.content
    }

    pub fn data_lba(&self) -> (r: Option<u32>)
        ensures
            r == self.data_lba,
    {
        self.data_lba
    }
}

/// A directory of the tree. Within one directory the subdirectory names are
/// distinct, and so are the file names.
#[derive(Debug)]
pub struct DirectoryEntry {
    /// First sector of the directory's records, once addresses are assigned.
    pub data_lba: Option<u32>,
    pub name: Vec<u8>,
    pub dirs: Vec<DirectoryEntry>,
    pub files: Vec<FileEntry>,
}

pub open spec fn dir_names_unique(ds: Seq<DirectoryEntry>) -> bool {
    forall|i: int, j: int|
        0 <= i < ds.len() && 0 <= j < ds.len() && i != j ==> #[trigger] ds[i].name@
            != #[trigger] ds[j].name@
}

pub open spec fn file_names_unique(fs: Seq<FileEntry>) -> bool {
    forall|i: int, j: int|
        0 <= i < fs.len() && 0 <= j < fs.len() && i != j ==> #[trigger] fs[i].name@
            != #[trigger] fs[j].name@
}

/// Sum of the record extents of a list of files.
pub open spec fn files_extent(fs: Seq<FileEntry>) -> nat
    decreases fs.len(),
{
    if fs.len() == 0 {
        0
    } else {
        files_extent(fs.drop_last()) + record_extent(fs.last().name@.len())
    }
}

/// Sum of the record extents of a list of directories.
pub open spec fn dirs_extent(ds: Seq<DirectoryEntry>) -> nat
    decreases ds.len(),
{
    if ds.len() == 0 {
        0
    } else {
        dirs_extent(ds.drop_last()) + record_extent(ds.last().name@.len())
    }
}

impl DirectoryEntry {
    /// Names are distinct and bounded at every level of the subtree.
    pub open spec fn wf(&self) -> bool
        decreases self,
    {
        &&& dir_names_unique(self.dirs@)
        &&& file_names_unique(self.files@)
        &&& forall|j: int| 0 <= j < self.files@.len() ==> valid_name(#[trigger] self.files@[j].name@)
        &&& forall|i: int|
            0 <= i < self.dirs@.len() ==> valid_name(#[trigger] self.dirs@[i].name@)
                && self.dirs@[i].wf()
    }

    /// Encoded length of this directory's records: its children's records
    /// and the two fixed entries `.` and `..`.
    pub open spec fn spec_data_length(&self) -> nat {
        files_extent(self.files@) + dirs_extent(self.dirs@) + DOT_ENTRIES_LENGTH as nat
    }

    /// An empty directory named `name` (cut at a character boundary to at
    /// most 255 bytes).
    pub fn new(name: &str) -> (r: Self)
        ensures
            r.wf(),
            r.data_lba is None,
            r.dirs@.len() == 0,
            r.files@.len() == 0,
            r.name@ == bounded_name(name.spec_bytes()),
            valid_name(r.name@),
    {
        DirectoryEntry { data_lba: None, name: name_of(name), dirs: Vec::new(), files: Vec::new() }
    }

    pub fn name(&self) -> (r: &[u8])
        ensures
            r@ == self.name@,
    {
        self.name.as_slice()
    }

    pub fn data_lba(&self) -> (r: Option<u32>)
        ensures
            r == self.data_lba,
    {
        self.data_lba
    }

    pub fn dirs(&self) -> (r: &[DirectoryEntry])
        ensures
            r@ == self.dirs@,
    {
        self.dirs.as_slice()
    }

    pub fn files(&self) -> (r: &[FileEntry])
        ensures
            r@ == self.files@,
    {
        self.files.as_slice()
    }

    /// The data length, or `None` where it does not fit in 32 bits.
    pub fn data_length(&self) -> (r: Option<u32>)
        requires
            self.wf(),
        ensures
            r is Some <==> self.spec_data_length() <= u32::MAX,
            r matches Some(n) ==> n == self.spec_data_length(),
    {
        let mut total: u64 = DOT_ENTRIES_LENGTH as u64;
        let mut j: usize = 0;
        while j < self.files.len()
            invariant
                j <= self.files@.len(),
                self.wf(),
                total == files_extent(self.files@.subrange(0, j as int)) + DOT_ENTRIES_LENGTH,
                total <= u32::MAX,
            decreases self.files@.len() - j,
        {
            let len = self.files[j].name.len();
            let ext: u64 = if len % 2 == 0 { 34 + len as u64 } else { 33 + len as u64 };
            proof {
                let s = self.files@.subrange(0, j as int + 1);
                assert(s.drop_last() =~= self.files@.subrange(0, j as int));
            }
            if ext > u32::MAX as u64 - total {
                proof {
                    lemma_files_extent_prefix(self.files@, j as int + 1);
                }
                return None;
            }
            total = total + ext;
            j = j + 1;
        }
        assert(self.files@.subrange(0, j as int) =~= self.files@);
        let mut i: usize = 0;
        while i < self.dirs.len()
            invariant
                i <= self.dirs@.len(),
                self.wf(),
                total == files_extent(self.files@) + dirs_extent(self.dirs@.subrange(0, i as int))
                    + DOT_ENTRIES_LENGTH,
                total <= u32::MAX,
            decreases self.dirs@.len() - i,
        {
            let len = self.dirs[i].name.len();
            let ext: u64 = if len % 2 == 0 { 34 + len as u64 } else { 33 + len as u64 };
            proof {
                let s = self.dirs@.subrange(0, i as int + 1);
                assert(s.drop_last() =~= self.dirs@.subrange(0, i as int));
            }
            if ext > u32::MAX as u64 - total {
                proof {
                    lemma_dirs_extent_prefix(self.dirs@, i as int + 1);
                }
                return None;
            }
            total = total + ext;
            i = i + 1;
        }
        assert(self.dirs@.subrange(0, i as int) =~= self.dirs@);
        Some(total as u32)
    }
}

/// The extent of a list of files is at least that of any prefix.
pub proof fn lemma_files_extent_prefix(fs: Seq<FileEntry>, k: int)
    requires
        0 <= k <= fs.len(),
    ensures
        files_extent(fs.subrange(0, k)) <= files_extent(fs),
    decreases fs.len(),
{
    if k < fs.len() {
        assert(fs.subrange(0, k) =~= fs.drop_last().subrange(0, k));
        lemma_files_extent_prefix(fs.drop_last(), k);
    } else {
        assert(fs.subrange(0, k) =~= fs);
    }
}

/// The extent of a list of directories is at least that of any prefix.
pub proof fn lemma_dirs_extent_prefix(ds: Seq<DirectoryEntry>, k: int)
    requires
        0 <= k <= ds.len(),
    ensures
        dirs_extent(ds.subrange(0, k)) <= dirs_extent(ds),
    decreases ds.len(),
{
    if k < ds.len() {
        assert(ds.subrange(0, k) =~= ds.drop_last().subrange(0, k));
        lemma_dirs_extent_prefix(ds.drop_last(), k);
    } else {
        assert(ds.subrange(0, k) =~= ds);
    }
}


/// What to do when a file of the incoming tree has the name of a file that
/// is already there.
pub enum OnFileConflict<F> {
    /// The incoming file replaces the existing one.
    Overwrite,
    /// The existing file stays and the incoming one is dropped.
    Ignore,
    /// The function is given the existing and the incoming file, in that
    /// order, and what it returns is installed; it must keep the name of the
    /// file it replaces.
    Handler(F),
}

impl<F: Fn(FileEntry, FileEntry) -> FileEntry> OnFileConflict<F> {
    /// A handler may be called on any two files and keeps the name of the
    /// existing one.
    pub open spec fn ready(&self) -> bool {
        match self {
            OnFileConflict::Handler(h) => {
                &&& forall|e: FileEntry, i: FileEntry| call_requires(*h, (e, i))
                &&& forall|e: FileEntry, i: FileEntry, o: FileEntry|
                    #[trigger] call_ensures(*h, (e, i), o) ==> o.name@ == e.name@
            },
            _ => true,
        }
    }
}

/// `r` is what `policy` installs when `incoming` meets `existing`.
pub open spec fn resolved<F: Fn(FileEntry, FileEntry) -> FileEntry>(
    existing: FileEntry,
    incoming: FileEntry,
    r: FileEntry,
    policy: OnFileConflict<F>,
) -> bool {
    match policy {
        OnFileConflict::Overwrite => r == incoming,
        OnFileConflict::Ignore => r == existing,
        OnFileConflict::Handler(h) => call_ensures(h, (existing, incoming), r),
    }
}

pub open spec fn has_file_named(fs: Seq<FileEntry>, n: Seq<u8>) -> bool {
    exists|i: int| 0 <= i < fs.len() && #[trigger] fs[i].name@ == n
}

pub open spec fn has_dir_named(ds: Seq<DirectoryEntry>, n: Seq<u8>) -> bool {
    exists|i: int| 0 <= i < ds.len() && #[trigger] ds[i].name@ == n
}

/// `r` is the union of the files `a` and `b`, each clash settled by `policy`.
pub open spec fn files_merged<F: Fn(FileEntry, FileEntry) -> FileEntry>(
    a: Seq<FileEntry>,
    b: Seq<FileEntry>,
    r: Seq<FileEntry>,
    policy: OnFileConflict<F>,
) -> bool {
    &&& forall|k: int|
        0 <= k < r.len() ==> has_file_named(a, #[trigger] r[k].name@) || has_file_named(
            b,
            r[k].name@,
        )
    &&& forall|i: int|
        0 <= i < a.len() && !has_file_named(b, #[trigger] a[i].name@) ==> exists|k: int|
            0 <= k < r.len() && #[trigger] r[k] == a[i]
    &&& forall|j: int|
        0 <= j < b.len() && !has_file_named(a, #[trigger] b[j].name@) ==> exists|k: int|
            0 <= k < r.len() && #[trigger] r[k] == b[j]
    &&& forall|i: int, j: int|
        0 <= i < a.len() && 0 <= j < b.len() && #[trigger] a[i].name@ == #[trigger] b[j].name@
            ==> exists|k: int| 0 <= k < r.len() && #[trigger] resolved(a[i], b[j], r[k], policy)
}

/// `r` is directory `a` with the contents of `b` merged into it: it keeps
/// the name and address of `a`, holds the union of both file sets, clashes
/// settled by `policy`, and the union of both directory sets, directories
/// of one name merged in turn.
pub open spec fn merged<F: Fn(FileEntry, FileEntry) -> FileEntry>(
    a: DirectoryEntry,
    b: DirectoryEntry,
    r: DirectoryEntry,
    policy: OnFileConflict<F>,
) -> bool
    decreases a,
{
    &&& r.name == a.name
    &&& r.data_lba == a.data_lba
    &&& files_merged(a.files@, b.files@, r.files@, policy)
    &&& forall|k: int|
        0 <= k < r.dirs@.len() ==> has_dir_named(a.dirs@, #[trigger] r.dirs@[k].name@)
            || has_dir_named(b.dirs@, r.dirs@[k].name@)
    &&& forall|i: int|
        0 <= i < a.dirs@.len() && !has_dir_named(b.dirs@, #[trigger] a.dirs@[i].name@)
            ==> exists|k: int| 0 <= k < r.dirs@.len() && #[trigger] r.dirs@[k] == a.dirs@[i]
    &&& forall|j: int|
        0 <= j < b.dirs@.len() && !has_dir_named(a.dirs@, #[trigger] b.dirs@[j].name@)
            ==> exists|k: int| 0 <= k < r.dirs@.len() && #[trigger] r.dirs@[k] == b.dirs@[j]
    &&& forall|i: int, j: int|
        0 <= i < a.dirs@.len() && 0 <= j < b.dirs@.len() && #[trigger] a.dirs@[i].name@
            == #[trigger] b.dirs@[j].name@ ==> exists|k: int|
            0 <= k < r.dirs@.len() && #[trigger] r.dirs@[k].name@ == a.dirs@[i].name@ && merged(
                a.dirs@[i],
                b.dirs@[j],
                r.dirs@[k],
                policy,
            )
}

/// `r` is the union of the subdirectories `a` and `b`, those of one name
/// merged recursively.
pub open spec fn dirs_merged<F: Fn(FileEntry, FileEntry) -> FileEntry>(
    a: Seq<DirectoryEntry>,
    b: Seq<DirectoryEntry>,
    r: Seq<DirectoryEntry>,
    policy: OnFileConflict<F>,
) -> bool {
    &&& forall|k: int|
        0 <= k < r.len() ==> has_dir_named(a, #[trigger] r[k].name@) || has_dir_named(
            b,
            r[k].name@,
        )
    &&& forall|i: int|
        0 <= i < a.len() && !has_dir_named(b, #[trigger] a[i].name@) ==> exists|k: int|
            0 <= k < r.len() && #[trigger] r[k] == a[i]
    &&& forall|j: int|
        0 <= j < b.len() && !has_dir_named(a, #[trigger] b[j].name@) ==> exists|k: int|
            0 <= k < r.len() && #[trigger] r[k] == b[j]
    &&& forall|i: int, j: int|
        0 <= i < a.len() && 0 <= j < b.len() && #[trigger] a[i].name@ == #[trigger] b[j].name@
            ==> exists|k: int|
            0 <= k < r.len() && #[trigger] r[k].name@ == a[i].name@ && merged(a[i], b[j], r[k], policy)
}

fn names_equal(a: &[u8], b: &[u8]) -> (r: bool)
    ensures
        r == (a@ == b@),
{
    if a.len() != b.len() {
        return false;
    }
    let mut i: usize = 0;
    while i < a.len()
        invariant
            a@.len() == b@.len(),
            i <= a@.len(),
            forall|k: int| 0 <= k < i ==> a@[k] == b@[k],
        decreases a@.len() - i,
    {
        if a[i] != b[i] {
            return false;
        }
        i = i + 1;
    }
    assert(a@ =~= b@);
    true
}

fn find_file(fs: &Vec<FileEntry>, name: &[u8]) -> (r: Option<usize>)
    ensures
        r matches Some(k) ==> k < fs@.len() && fs@[k as int].name@ == name@,
        r is None ==> !has_file_named(fs@, name@),
{
    let mut i: usize = 0;
    while i < fs.len()
        invariant
            i <= fs@.len(),
            forall|k: int| 0 <= k < i ==> fs@[k].name@ != name@,
        decreases fs@.len() - i,
    {
        if names_equal(fs[i].name.as_slice(), name) {
            return Some(i);
        }
        i = i + 1;
    }
    None
}

fn find_dir(ds: &Vec<DirectoryEntry>, name: &[u8]) -> (r: Option<usize>)
    ensures
        r matches Some(k) ==> k < ds@.len() && ds@[k as int].name@ == name@,
        r is None ==> !has_dir_named(ds@, name@),
{
    let mut i: usize = 0;
    while i < ds.len()
        invariant
            i <= ds@.len(),
            forall|k: int| 0 <= k < i ==> ds@[k].name@ != name@,
        decreases ds@.len() - i,
    {
        if names_equal(ds[i].name.as_slice(), name) {
            return Some(i);
        }
        i = i + 1;
    }
    None
}

pub open spec fn files_valid(fs: Seq<FileEntry>) -> bool {
    &&& file_names_unique(fs)
    &&& forall|j: int| 0 <= j < fs.len() ==> valid_name(#[trigger] fs[j].name@)
}

/// Merges `incoming` into `files` under `policy`.
fn merge_files<F: Fn(FileEntry, FileEntry) -> FileEntry>(
    files: &mut Vec<FileEntry>,
    incoming: Vec<FileEntry>,
    policy: &OnFileConflict<F>,
)
    requires
        files_valid(old(files)@),
        files_valid(incoming@),
        policy.ready(),
    ensures
        files_valid(final(files)@),
        files_merged(old(files)@, incoming@, final(files)@, *policy),
{
    let ghost a = old(files)@;
    let ghost b = incoming@;
    let mut incoming = incoming;
    let ghost mut t: int = 0;
    while incoming.len() > 0
        invariant
            0 <= t <= b.len(),
            incoming@ == b.subrange(t, b.len() as int),
            files_valid(b),
            files_valid(a),
            files_valid(files@),
            policy.ready(),
            files_merged(a, b.subrange(0, t), files@, *policy),
        decreases incoming@.len(),
    {
        let f = incoming.remove(0);
        assert(f == b[t]);
        let ghost prev = files@;
        let ghost bp = b.subrange(0, t);
        let ghost bn = b.subrange(0, t + 1);
        assert(forall|j: int| 0 <= j < t ==> bn[j] == bp[j]);
        assert(bn[t] == f);
        assert(!has_file_named(bp, f.name@));
        let ghost mut kk: int = -1;
        let ghost mut ek: FileEntry = f;
        match find_file(files, f.name.as_slice()) {
            Some(k) => {
                let ghost old_k = files@[k as int];
                proof {
                    kk = k as int;
                    ek = old_k;
                }
                assert(!has_file_named(bp, old_k.name@));
                assert(exists|i: int| 0 <= i < a.len() && a[i] == old_k && a[i].name@ == f.name@);
                match policy {
                    OnFileConflict::Overwrite => {
                        let _ = files.remove(k);
                        files.insert(k, f);
                    },
                    OnFileConflict::Ignore => {},
                    OnFileConflict::Handler(h) => {
                        let existing = files.remove(k);
                        let ghost e = existing;
                        let out = h(existing, f);
                        assert(resolved(e, f, out, *policy));
                        files.insert(k, out);
                    },
                }
                assert(files@.len() == prev.len());
                assert(forall|m: int| 0 <= m < prev.len() && m != k ==> files@[m] == prev[m]);
                assert(files@[k as int].name@ == f.name@);
                assert(resolved(old_k, f, files@[k as int], *policy));
            },
            None => {
                proof {
                    assert(!has_file_named(a, f.name@));
                }
                files.push(f);
                assert(forall|m: int| 0 <= m < prev.len() ==> files@[m] == prev[m]);
            },
        }
        proof {
            let r = files@;
            assert forall|m: int| 0 <= m < r.len() implies has_file_named(a, #[trigger] r[m].name@)
                || has_file_named(bn, r[m].name@) by {
                if m < prev.len() && r[m] == prev[m] {
                    if has_file_named(bp, prev[m].name@) {
                        let j = choose|j: int| 0 <= j < bp.len() && #[trigger] bp[j].name@ == prev[m].name@;
                        assert(bn[j] == bp[j]);
                    }
                } else {
                    assert(r[m].name@ == f.name@);
                    assert(bn[t] == f);
                }
            }
            assert forall|i: int| 0 <= i < a.len() && !has_file_named(bn, #[trigger] a[i].name@)
                implies exists|m: int| 0 <= m < r.len() && #[trigger] r[m] == a[i] by {
                if has_file_named(bp, a[i].name@) {
                    let j = choose|j: int| 0 <= j < bp.len() && #[trigger] bp[j].name@ == a[i].name@;
                    assert(bn[j] == bp[j]);
                }
                assert(a[i].name@ != f.name@);
                let m = choose|m: int| 0 <= m < prev.len() && #[trigger] prev[m] == a[i];
                assert(r[m] == prev[m]);
            }
            assert forall|j: int| 0 <= j < bn.len() && !has_file_named(a, #[trigger] bn[j].name@)
                implies exists|m: int| 0 <= m < r.len() && #[trigger] r[m] == bn[j] by {
                if j < t {
                    assert(bn[j] == bp[j]);
                    assert(bp[j].name@ != f.name@);
                    let m = choose|m: int| 0 <= m < prev.len() && #[trigger] prev[m] == bp[j];
                    assert(r[m] == prev[m]);
                } else {
                    assert(bn[j] == f);
                    assert(r[prev.len() as int] == f);
                }
            }
            assert forall|i: int, j: int|
                0 <= i < a.len() && 0 <= j < bn.len() && #[trigger] a[i].name@ == #[trigger] bn[j].name@
                implies exists|m: int| 0 <= m < r.len() && #[trigger] resolved(a[i], bn[j], r[m], *policy) by {
                if j < t {
                    assert(bn[j] == bp[j]);
                    assert(bp[j].name@ != f.name@);
                    let m = choose|m: int| 0 <= m < prev.len() && #[trigger] resolved(a[i], bp[j], prev[m], *policy);
                    lemma_resolved_name(a[i], bp[j], prev[m], *policy);
                    assert(r[m] == prev[m]);
                } else {
                    assert(bn[j] == f);
                    assert(has_file_named(prev, f.name@));
                    assert(kk >= 0);
                    let i2 = choose|i2: int| 0 <= i2 < a.len() && a[i2] == ek && a[i2].name@ == f.name@;
                    assert(i2 == i);
                    assert(resolved(a[i], bn[j], r[kk], *policy));
                }
            }
            t = t + 1;
        }
    }
    assert(b.subrange(0, t) =~= b);
}

/// Whatever the policy, the installed file keeps the shared name.
pub(crate) proof fn lemma_resolved_name<F: Fn(FileEntry, FileEntry) -> FileEntry>(
    e: FileEntry,
    i: FileEntry,
    r: FileEntry,
    policy: OnFileConflict<F>,
)
    requires
        policy.ready(),
        resolved(e, i, r, policy),
        e.name@ == i.name@,
    ensures
        r.name@ == e.name@,
{
}

pub open spec fn dirs_valid(ds: Seq<DirectoryEntry>) -> bool {
    &&& dir_names_unique(ds)
    &&& forall|i: int| 0 <= i < ds.len() ==> valid_name(#[trigger] ds[i].name@) && ds[i].wf()
}

impl DirectoryEntry {
    /// Merges `other` into this directory: subdirectories of one name are
    /// merged recursively, files of one name are settled by
    /// `on_file_conflict`, everything else is added.
    pub fn merge<F: Fn(FileEntry, FileEntry) -> FileEntry>(
        &mut self,
        other: DirectoryEntry,
        on_file_conflict: &OnFileConflict<F>,
    )
        requires
            old(self).wf(),
            other.wf(),
            on_file_conflict.ready(),
        ensures
            final(self).wf(),
            merged(*old(self), other, *final(self), *on_file_conflict),
        decreases other,
    {
        let ghost a = self.dirs@;
        let ghost b = other.dirs@;
        let ghost bf = other.files@;
        let ghost orig = *self;
        let ghost other_whole = other;
        let DirectoryEntry { data_lba: _, name: _, dirs: incoming, files: incoming_files } = other;
        let mut incoming = incoming;
        let ghost mut t: int = 0;
        while incoming.len() > 0
            invariant
                0 <= t <= b.len(),
                incoming@ == b.subrange(t, b.len() as int),
                b == other_whole.dirs@,
                other_whole == other,
                dirs_valid(b),
                dirs_valid(a),
                dirs_valid(self.dirs@),
                self.name == orig.name,
                self.data_lba == orig.data_lba,
                self.files == orig.files,
                a == orig.dirs@,
                on_file_conflict.ready(),
                dirs_merged(a, b.subrange(0, t), self.dirs@, *on_file_conflict),
            decreases incoming@.len(),
        {
            let d = incoming.remove(0);
            assert(d == b[t]);
            proof {
                assert(decreases_to!(other_whole => other_whole.dirs));
                assert(decreases_to!(other_whole.dirs => other_whole.dirs[t]));
                assert(decreases_to!(other_whole => d));
            }
            let ghost prev = self.dirs@;
            let ghost bp = b.subrange(0, t);
            let ghost bn = b.subrange(0, t + 1);
            assert(forall|j: int| 0 <= j < t ==> bn[j] == bp[j]);
            assert(bn[t] == d);
            assert(!has_dir_named(bp, d.name@));
            let ghost mut kk: int = -1;
            let ghost mut ek: DirectoryEntry = d;
            match find_dir(&self.dirs, d.name.as_slice()) {
                Some(k) => {
                    let mut existing = self.dirs.remove(k);
                    proof {
                        kk = k as int;
                        ek = existing;
                    }
                    assert(!has_dir_named(bp, existing.name@));
                    assert(exists|i: int| 0 <= i < a.len() && a[i] == existing && a[i].name@ == d.name@);
                    existing.merge(d, on_file_conflict);
                    self.dirs.insert(k, existing);
                    assert(self.dirs@.len() == prev.len());
                    assert(forall|m: int| 0 <= m < prev.len() && m != k ==> self.dirs@[m] == prev[m]);
                    assert(merged(ek, d, self.dirs@[k as int], *on_file_conflict));
                },
                None => {
                    proof {
                        assert(!has_dir_named(a, d.name@));
                    }
                    self.dirs.push(d);
                    assert(forall|m: int| 0 <= m < prev.len() ==> self.dirs@[m] == prev[m]);
                },
            }
            proof {
                let r = self.dirs@;
                assert forall|m: int| 0 <= m < r.len() implies has_dir_named(a, #[trigger] r[m].name@)
                    || has_dir_named(bn, r[m].name@) by {
                    if m < prev.len() && r[m] == prev[m] {
                        if has_dir_named(bp, prev[m].name@) {
                            let j = choose|j: int| 0 <= j < bp.len() && #[trigger] bp[j].name@ == prev[m].name@;
                            assert(bn[j] == bp[j]);
                        }
                    } else {
                        assert(r[m].name@ == d.name@);
                        assert(bn[t] == d);
                    }
                }
                assert forall|i: int| 0 <= i < a.len() && !has_dir_named(bn, #[trigger] a[i].name@)
                    implies exists|m: int| 0 <= m < r.len() && #[trigger] r[m] == a[i] by {
                    if has_dir_named(bp, a[i].name@) {
                        let j = choose|j: int| 0 <= j < bp.len() && #[trigger] bp[j].name@ == a[i].name@;
                        assert(bn[j] == bp[j]);
                    }
                    assert(a[i].name@ != d.name@);
                    let m = choose|m: int| 0 <= m < prev.len() && #[trigger] prev[m] == a[i];
                    assert(r[m] == prev[m]);
                }
                assert forall|j: int| 0 <= j < bn.len() && !has_dir_named(a, #[trigger] bn[j].name@)
                    implies exists|m: int| 0 <= m < r.len() && #[trigger] r[m] == bn[j] by {
                    if j < t {
                        assert(bn[j] == bp[j]);
                        assert(bp[j].name@ != d.name@);
                        let m = choose|m: int| 0 <= m < prev.len() && #[trigger] prev[m] == bp[j];
                        assert(r[m] == prev[m]);
                    } else {
                        assert(bn[j] == d);
                        assert(r[prev.len() as int] == d);
                    }
                }
                assert forall|i: int, j: int|
                    0 <= i < a.len() && 0 <= j < bn.len() && #[trigger] a[i].name@ == #[trigger] bn[j].name@
                    implies exists|m: int| 0 <= m < r.len() && #[trigger] r[m].name@ == a[i].name@ && merged(a[i], bn[j], r[m], *on_file_conflict) by {
                    if j < t {
                        assert(bn[j] == bp[j]);
                        assert(bp[j].name@ != d.name@);
                        assert(dirs_merged(a, bp, prev, *on_file_conflict));
                        assert(a[i].name@ == bp[j].name@);
                        let m = choose|m: int| 0 <= m < prev.len() && #[trigger] prev[m].name@ == a[i].name@ && merged(a[i], bp[j], prev[m], *on_file_conflict);
                        assert(prev[m].name == a[i].name);
                        assert(r[m] == prev[m]);
                    } else {
                        assert(bn[j] == d);
                        assert(has_dir_named(prev, d.name@));
                        assert(kk >= 0);
                        let i2 = choose|i2: int| 0 <= i2 < a.len() && a[i2] == ek && a[i2].name@ == d.name@;
                        assert(i2 == i);
                        assert(merged(a[i], bn[j], r[kk], *on_file_conflict));
                    }
                }
                t = t + 1;
            }
        }
        assert(b.subrange(0, t) =~= b);
        merge_files(&mut self.files, incoming_files, on_file_conflict);
        assert(dirs_merged(a, b, self.dirs@, *on_file_conflict));
    }
}

/// `d` is a chain of single directories named `comps`, outermost first,
/// the last of which holds exactly the directories `leaf_dirs` and the
/// files `leaf`; `d`'s own name is not looked at.
pub open spec fn chain(
    d: DirectoryEntry,
    comps: Seq<Seq<u8>>,
    leaf_dirs: Seq<DirectoryEntry>,
    leaf: Seq<FileEntry>,
) -> bool
    decreases comps.len(),
{
    if comps.len() == 0 {
        d.dirs@ == leaf_dirs && d.files@ == leaf
    } else {
        &&& d.files@.len() == 0
        &&& d.dirs@.len() == 1
        &&& d.dirs@[0].name@ == comps[0]
        &&& d.dirs@[0].data_lba is None
        &&& chain(d.dirs@[0], comps.drop_first(), leaf_dirs, leaf)
    }
}

/// The byte strings held by `parts`.
pub open spec fn byte_views(parts: Seq<Vec<u8>>) -> Seq<Seq<u8>> {
    parts.map_values(|p: Vec<u8>| p@)
}

/// A path with the components `ps` names no file: it has none, or its last
/// is `..`.
pub open spec fn no_file_name(ps: Seq<Seq<u8>>) -> bool {
    ps.len() == 0 || is_parent(ps.last())
}

/// One of the components `ps` is not UTF-8.
pub open spec fn has_invalid_name(ps: Seq<Seq<u8>>) -> bool {
    exists|i: int| 0 <= i < ps.len() && !valid_utf8(#[trigger] ps[i])
}

/// The names that the components `parts` of a path become.
pub open spec fn bounded_names(parts: Seq<Seq<u8>>) -> Seq<Seq<u8>> {
    parts.map_values(|p: Seq<u8>| bounded_name(p))
}

/// `r` is `a` after a file with `content` was put at the path whose
/// components are `parts`: a chain of directories named after all but the
/// last component, holding one file named after the last, merged into `a`.
pub open spec fn inserted<F: Fn(FileEntry, FileEntry) -> FileEntry>(
    a: DirectoryEntry,
    r: DirectoryEntry,
    parts: Seq<Seq<u8>>,
    content: FileEntryContent,
    policy: OnFileConflict<F>,
) -> bool {
    let names = bounded_names(parts);
    exists|s: DirectoryEntry, f: FileEntry|
        #[trigger] chain(s, names.drop_last(), seq![], seq![f]) && f.name@ == names.last() && f.content
            == content && f.data_lba is None && merged(a, s, r, policy)
}

/// Renaming a directory keeps it well formed and keeps the chain it heads.
proof fn lemma_rename(
    d: DirectoryEntry,
    e: DirectoryEntry,
    comps: Seq<Seq<u8>>,
    leaf_dirs: Seq<DirectoryEntry>,
    leaf: Seq<FileEntry>,
)
    requires
        e.dirs == d.dirs,
        e.files == d.files,
    ensures
        d.wf() ==> e.wf(),
        chain(d, comps, leaf_dirs, leaf) ==> chain(e, comps, leaf_dirs, leaf),
{
}

/// The root of a tree: a directory without a name and without a parent.
#[derive(Debug)]
pub struct RootDirectory {
    pub dir: DirectoryEntry,
}

impl DirectoryEntry {
    /// This directory's contents and address, as a root.
    pub fn into_root_directory(self) -> (r: RootDirectory)
        requires
            self.wf(),
        ensures
            r.wf(),
            r.dir.data_lba == self.data_lba,
            r.dir.dirs == self.dirs,
            r.dir.files == self.files,
    {
        RootDirectory {
            dir: DirectoryEntry {
                data_lba: self.data_lba,
                name: Vec::new(),
                dirs: self.dirs,
                files: self.files,
            },
        }
    }
}

impl RootDirectory {
    pub open spec fn wf(&self) -> bool {
        self.dir.wf() && self.dir.name@.len() == 0
    }

    /// An empty root.
    pub fn new() -> (r: Self)
        ensures
            r.wf(),
            r.dir.data_lba is None,
            r.dir.dirs@.len() == 0,
            r.dir.files@.len() == 0,
    {
        RootDirectory {
            dir: DirectoryEntry { data_lba: None, name: Vec::new(), dirs: Vec::new(), files: Vec::new() },
        }
    }

    /// A root holding a chain of directories named `components`, outermost
    /// first, the innermost of which holds `dirs` and `files` (the root
    /// itself holds them where there are no components).
    pub fn scaffold(components: Vec<Vec<u8>>, dirs: Vec<DirectoryEntry>, files: Vec<FileEntry>) -> (r: Self)
        requires
            forall|i: int| 0 <= i < components@.len() ==> valid_name(#[trigger] components@[i]@),
            dirs_valid(dirs@),
            files_valid(files@),
        ensures
            r.wf(),
            r.dir.data_lba is None,
            chain(r.dir, components@.map_values(|c: Vec<u8>| c@), dirs@, files@),
    {
        let ghost c = components@.map_values(|v: Vec<u8>| v@);
        let ghost n = components@.len() as int;
        let ghost leaf = files@;
        let ghost leaf_dirs = dirs@;
        let mut comps = components;
        let mut inner = DirectoryEntry { data_lba: None, name: Vec::new(), dirs, files };
        assert(c.subrange(n, n).len() == 0);
        while comps.len() > 0
            invariant
                comps@.len() <= n,
                n == c.len(),
                forall|i: int| 0 <= i < comps@.len() ==> #[trigger] comps@[i]@ == c[i],
                forall|i: int| 0 <= i < n ==> valid_name(#[trigger] c[i]),
                inner.wf(),
                inner.name@.len() == 0,
                inner.data_lba is None,
                files_valid(leaf),
                chain(inner, c.subrange(comps@.len() as int, n), leaf_dirs, leaf),
            decreases comps@.len(),
        {
            let ghost k = comps@.len() - 1;
            let last = comps.pop();
            let nm = match last {
                Some(v) => v,
                None => Vec::new(),
            };
            assert(nm@ == c[k]);
            let ghost before = inner;
            inner.name = nm;
            proof {
                lemma_rename(before, inner, c.subrange(k + 1, n), leaf_dirs, leaf);
            }
            let mut ds: Vec<DirectoryEntry> = Vec::new();
            ds.push(inner);
            inner = DirectoryEntry { data_lba: None, name: Vec::new(), dirs: ds, files: Vec::new() };
            assert(inner.dirs@[0].wf());
            assert(dir_names_unique(inner.dirs@));
            assert(c.subrange(k, n).drop_first() =~= c.subrange(k + 1, n));
            assert(c.subrange(k, n)[0] == c[k]);
        }
        assert(c.subrange(0, n) =~= c);
        RootDirectory { dir: inner }
    }

    /// A root made from `dir`: with `emplace`, `dir`'s contents and address
    /// become the root's; without, `dir` becomes the root's only entry.
    pub fn from_directory(dir: DirectoryEntry, emplace: bool) -> (r: Self)
        requires
            dir.wf(),
            valid_name(dir.name@),
        ensures
            r.wf(),
            emplace ==> r.dir.data_lba == dir.data_lba && r.dir.dirs == dir.dirs && r.dir.files
                == dir.files,
            !emplace ==> r.dir.data_lba is None && r.dir.files@.len() == 0 && r.dir.dirs@ == seq![
                dir,
            ],
    {
        if emplace {
            dir.into_root_directory()
        } else {
            let mut dirs: Vec<DirectoryEntry> = Vec::new();
            dirs.push(dir);
            RootDirectory {
                dir: DirectoryEntry { data_lba: None, name: Vec::new(), dirs, files: Vec::new() },
            }
        }
    }

    /// Merges `other` into this root; see [`DirectoryEntry::merge`].
    pub fn merge<F: Fn(FileEntry, FileEntry) -> FileEntry>(
        &mut self,
        other: RootDirectory,
        on_file_conflict: &OnFileConflict<F>,
    )
        requires
            old(self).wf(),
            other.wf(),
            on_file_conflict.ready(),
        ensures
            final(self).wf(),
            merged(old(self).dir, other.dir, final(self).dir, *on_file_conflict),
    {
        self.dir.merge(other.dir, on_file_conflict);
    }

    /// Puts a file with `content` at `path`, whose components are separated
    /// by `/` or `\`: missing directories on the way are created, and a
    /// file already there is settled by `on_file_conflict`.
    pub fn insert_at<F: Fn(FileEntry, FileEntry) -> FileEntry>(
        &mut self,
        parts: Vec<Vec<u8>>,
        content: FileEntryContent,
        on_file_conflict: &OnFileConflict<F>,
    ) -> (r: Result<(), Error>)
        requires
            old(self).wf(),
            on_file_conflict.ready(),
        ensures
            final(self).wf(),
            r == Err::<(), Error>(Error::NotAFile) <==> no_file_name(byte_views(parts@)),
            r == Err::<(), Error>(Error::InvalidName) <==> !no_file_name(byte_views(parts@)) && has_invalid_name(
                byte_views(parts@),
            ),
            r is Err ==> *final(self) == *old(self),
            r is Err ==> r == Err::<(), Error>(Error::NotAFile) || r == Err::<(), Error>(
                Error::InvalidName,
            ),
            r is Ok ==> inserted(
                old(self).dir,
                final(self).dir,
                byte_views(parts@),
                content,
                *on_file_conflict,
            ),
    {
        let ghost ps = byte_views(parts@);
        if parts.len() == 0 {
            return Err(Error::NotAFile);
        }
        let last = &parts[parts.len() - 1];
        if last.len() == 2 && last[0] == 0x2e && last[1] == 0x2e {
            assert(ps.last() =~= seq![0x2eu8, 0x2eu8]);
            return Err(Error::NotAFile);
        }
        assert(!is_parent(ps.last()));
        let mut names: Vec<Vec<u8>> = Vec::new();
        let mut i: usize = 0;
        while i < parts.len()
            invariant
                i <= parts@.len(),
                *self == *old(self),
                self.wf(),
                ps.len() > 0,
                !no_file_name(ps),
                ps == byte_views(parts@),
                parts@.len() == ps.len(),
                forall|k: int| 0 <= k < parts@.len() ==> #[trigger] parts@[k]@ == ps[k],
                names@.len() == i,
                forall|k: int| 0 <= k < i ==> valid_utf8(#[trigger] ps[k]),
                forall|k: int|
                    0 <= k < i ==> #[trigger] names@[k]@ == bounded_name(ps[k]) && valid_name(
                        names@[k]@,
                    ),
            decreases parts@.len() - i,
        {
            match to_bounded_name(parts[i].as_slice()) {
                Some(n) => {
                    proof {
                        crate::name::lemma_bounded_name_len(parts@[i as int]@);
                    }
                    names.push(n);
                },
                None => {
                    assert(!valid_utf8(ps[i as int]));
                    return Err(Error::InvalidName);
                },
            }
            i = i + 1;
        }
        let ghost all = names@;
        let file_name = match names.pop() {
            Some(n) => n,
            None => Vec::new(),
        };
        let file = FileEntry { data_lba: None, name: file_name, content };
        let ghost f = file;
        let mut files: Vec<FileEntry> = Vec::new();
        files.push(file);
        assert(files@ == seq![f]);
        let scaffold = RootDirectory::scaffold(names, Vec::new(), files);
        proof {
            let bn = bounded_names(ps);
            assert(forall|k: int| 0 <= k < ps.len() ==> #[trigger] bn[k] == bounded_name(ps[k]));
            assert(all.len() == ps.len());
            assert(all.drop_last().map_values(|c: Vec<u8>| c@) =~= bn.drop_last());
            assert(f.name@ == bn.last());
        }
        self.dir.merge(scaffold.dir, on_file_conflict);
        assert(inserted(old(self).dir, self.dir, ps, content, *on_file_conflict));
        Ok(())
    }

    /// Puts a file with `content` at `path`, whose components are separated
    /// by `/` or `\`: missing directories on the way are created, and a
    /// file already there is settled by `on_file_conflict`.
    pub fn insert_file<F: Fn(FileEntry, FileEntry) -> FileEntry>(
        &mut self,
        path: &str,
        content: FileEntryContent,
        on_file_conflict: &OnFileConflict<F>,
    ) -> (r: Result<(), Error>)
        requires
            old(self).wf(),
            on_file_conflict.ready(),
        ensures
            final(self).wf(),
            r == Err::<(), Error>(Error::NotAFile) <==> no_file_name(path_names(path.spec_bytes())),
            r == Err::<(), Error>(Error::InvalidName) <==> !no_file_name(path_names(path.spec_bytes())) && has_invalid_name(
                path_names(path.spec_bytes()),
            ),
            r is Err ==> *final(self) == *old(self),
            r is Err ==> r == Err::<(), Error>(Error::NotAFile) || r == Err::<(), Error>(
                Error::InvalidName,
            ),
            r is Ok ==> inserted(
                old(self).dir,
                final(self).dir,
                path_names(path.spec_bytes()),
                content,
                *on_file_conflict,
            ),
    {
        let parts = names_of(path.as_bytes());
        assert(byte_views(parts@) =~= path_names(path.spec_bytes()));
        self.insert_at(parts, content, on_file_conflict)
    }
}

/// The components of a path joining `dest` and `rel`.
pub open spec fn joined_names(dest: Seq<u8>, rel: Seq<u8>) -> Seq<Seq<u8>> {
    path_names(dest) + path_names(rel)
}

/// Putting a file at the joined path of `dest` and `rel` fails.
pub open spec fn insertion_fails(dest: Seq<u8>, rel: Seq<u8>) -> bool {
    no_file_name(joined_names(dest, rel)) || has_invalid_name(joined_names(dest, rel))
}

/// The error that putting a file at the joined path of `dest` and `rel`
/// gives, if any.
pub open spec fn insertion_error(dest: Seq<u8>, rel: Seq<u8>) -> Option<Error> {
    if no_file_name(joined_names(dest, rel)) {
        Some(Error::NotAFile)
    } else if has_invalid_name(joined_names(dest, rel)) {
        Some(Error::InvalidName)
    } else {
        None
    }
}

/// `r` is an empty tree after files with `contents` were put, in order, at
/// the paths `rels` below `dest`.
pub open spec fn captured<F: Fn(FileEntry, FileEntry) -> FileEntry>(
    r: DirectoryEntry,
    dest: Seq<u8>,
    rels: Seq<Seq<u8>>,
    contents: Seq<FileEntryContent>,
    policy: OnFileConflict<F>,
) -> bool
    decreases rels.len(),
{
    if rels.len() == 0 {
        r.dirs@.len() == 0 && r.files@.len() == 0 && r.data_lba is None
    } else {
        exists|m: DirectoryEntry|
            #[trigger] inserted(
                m,
                r,
                joined_names(dest, rels.last()),
                contents.last(),
                policy,
            ) && captured(m, dest, rels.drop_last(), contents.drop_last(), policy)
    }
}

/// The UTF-8 bytes of each path of `files`.
pub open spec fn path_bytes(files: Seq<(String, FileEntryContent)>) -> Seq<Seq<u8>> {
    files.map_values(|e: (String, FileEntryContent)| encode_utf8(e.0@))
}

/// The content of each entry of `files`.
pub open spec fn contents_of(files: Seq<(String, FileEntryContent)>) -> Seq<FileEntryContent> {
    files.map_values(|e: (String, FileEntryContent)| e.1)
}

/// A tree to be put on the image.
#[derive(Debug)]
pub struct Filesystem {
    pub root: RootDirectory,
}

impl Filesystem {
    pub open spec fn wf(&self) -> bool {
        self.root.wf()
    }

    /// An empty filesystem.
    pub fn new() -> (r: Self)
        ensures
            r.wf(),
            r.root.dir.data_lba is None,
            r.root.dir.dirs@.len() == 0,
            r.root.dir.files@.len() == 0,
    {
        Filesystem { root: RootDirectory::new() }
    }

    /// Merges `other` into this filesystem; see [`DirectoryEntry::merge`].
    pub fn merge<F: Fn(FileEntry, FileEntry) -> FileEntry>(
        &mut self,
        other: Filesystem,
        on_file_conflict: &OnFileConflict<F>,
    ) -> (r: Result<(), Error>)
        requires
            old(self).wf(),
            other.wf(),
            on_file_conflict.ready(),
        ensures
            r is Ok,
            final(self).wf(),
            merged(old(self).root.dir, other.root.dir, final(self).root.dir, *on_file_conflict),
    {
        self.root.merge(other.root, on_file_conflict);
        Ok(())
    }

    /// Puts a file at `path`; see [`RootDirectory::insert_file`].
    pub fn insert_file<F: Fn(FileEntry, FileEntry) -> FileEntry>(
        &mut self,
        path: &str,
        content: FileEntryContent,
        on_file_conflict: &OnFileConflict<F>,
    ) -> (r: Result<(), Error>)
        requires
            old(self).wf(),
            on_file_conflict.ready(),
        ensures
            final(self).wf(),
            r == Err::<(), Error>(Error::NotAFile) <==> no_file_name(path_names(path.spec_bytes())),
            r == Err::<(), Error>(Error::InvalidName) <==> !no_file_name(path_names(path.spec_bytes())) && has_invalid_name(
                path_names(path.spec_bytes()),
            ),
            r is Err ==> *final(self) == *old(self),
            r is Err ==> r == Err::<(), Error>(Error::NotAFile) || r == Err::<(), Error>(
                Error::InvalidName,
            ),
            r is Ok ==> inserted(
                old(self).root.dir,
                final(self).root.dir,
                path_names(path.spec_bytes()),
                content,
                *on_file_conflict,
            ),
    {
        self.root.insert_file(path, content, on_file_conflict)
    }
}

impl Filesystem {
    /// A filesystem holding the given files (each a path relative to the
    /// captured directory, and its content), put in order below
    /// `destination`; clashes are settled by `on_file_conflict`.
    pub fn capture<F: Fn(FileEntry, FileEntry) -> FileEntry>(
        destination: &str,
        files: Vec<(String, FileEntryContent)>,
        on_file_conflict: &OnFileConflict<F>,
    ) -> (r: Result<Filesystem, Error>)
        requires
            on_file_conflict.ready(),
        ensures
            r is Err <==> exists|i: int|
                0 <= i < files@.len() && insertion_fails(
                    destination.spec_bytes(),
                    encode_utf8((#[trigger] files@[i]).0@),
                ),
            r matches Err(e) ==> exists|i: int|
                0 <= i < files@.len() && insertion_error(
                    destination.spec_bytes(),
                    encode_utf8((#[trigger] files@[i]).0@),
                ) == Some(e) && forall|j: int|
                    0 <= j < i ==> !insertion_fails(
                        destination.spec_bytes(),
                        encode_utf8((#[trigger] files@[j]).0@),
                    ),
            r matches Ok(fs) ==> fs.wf() && captured(
                fs.root.dir,
                destination.spec_bytes(),
                path_bytes(files@),
                contents_of(files@),
                *on_file_conflict,
            ),
    {
        let mut fs = Filesystem::new();
        let dest = names_of(destination.as_bytes());
        let ghost db = destination.spec_bytes();
        let ghost all = files@;
        let count: usize = files.len();
        let ghost rels = path_bytes(all);
        let ghost conts = contents_of(all);
        let mut rest = files;
        let mut i: usize = 0;
        assert(rels.take(0).len() == 0);
        while rest.len() > 0
            invariant
                i <= all.len(),
                all.len() == count,
                all == files@,
                rest@ == all.skip(i as int),
                rels == path_bytes(all),
                conts == contents_of(all),
                db == destination.spec_bytes(),
                dest@.len() == path_names(db).len(),
                forall|m: int| 0 <= m < dest@.len() ==> #[trigger] dest@[m]@ == path_names(db)[m],
                fs.wf(),
                on_file_conflict.ready(),
                captured(fs.root.dir, db, rels.take(i as int), conts.take(i as int), *on_file_conflict),
                forall|j: int| 0 <= j < i ==> !insertion_fails(db, #[trigger] rels[j]),
            decreases rest@.len(),
        {
            assert(i < all.len());
            let entry = rest.remove(0);
            assert(entry == all[i as int]);
            let (path, content) = entry;
            let rel = names_of(path.as_str().as_bytes());
            let mut parts: Vec<Vec<u8>> = Vec::new();
            let mut k: usize = 0;
            while k < dest.len()
                invariant
                    k <= dest@.len(),
                    parts@.len() == k,
                    forall|m: int| 0 <= m < k ==> #[trigger] parts@[m]@ == dest@[m]@,
                decreases dest@.len() - k,
            {
                parts.push(copy_name(&dest[k]));
                k = k + 1;
            }
            let mut rel = rel;
            let ghost relv = rel@;
            parts.append(&mut rel);
            proof {
                assert(rels[i as int] == encode_utf8(path@));
                assert(byte_views(parts@) =~= joined_names(db, rels[i as int]));
            }
            let ghost prev = fs.root.dir;
            match fs.root.insert_at(parts, content, on_file_conflict) {
                Ok(()) => {},
                Err(e) => {
                    proof {
                        assert(insertion_fails(db, rels[i as int]));
                        assert(insertion_fails(db, encode_utf8(all[i as int].0@)));
                        assert(insertion_error(db, encode_utf8(all[i as int].0@)) == Some(e));
                        assert forall|j: int| 0 <= j < i implies !insertion_fails(
                            db,
                            encode_utf8((#[trigger] all[j]).0@),
                        ) by {
                            assert(rels[j] == encode_utf8(all[j].0@));
                        }
                    }
                    return Err(e);
                },
            }
            proof {
                let rt = rels.take(i + 1);
                let ct = conts.take(i + 1);
                assert(rt.drop_last() =~= rels.take(i as int));
                assert(ct.drop_last() =~= conts.take(i as int));
                assert(rt.last() == rels[i as int]);
                assert(ct.last() == content);
                assert(inserted(prev, fs.root.dir, joined_names(db, rt.last()), ct.last(), *on_file_conflict));
                assert(!insertion_fails(db, rels[i as int]));
            }
            i = i + 1;
        }
        proof {
            assert(rels.take(i as int) =~= rels);
            assert(conts.take(i as int) =~= conts);
            assert forall|j: int| 0 <= j < files@.len() implies !insertion_fails(destination.spec_bytes(), encode_utf8((#[trigger] files@[j]).0@)) by {
                assert(rels[j] == encode_utf8(files@[j].0@));
            }
        }
        Ok(fs)
    }
}

fn copy_name(v: &Vec<u8>) -> (r: Vec<u8>)
    ensures
        r@ == v@,
{
    let mut r: Vec<u8> = Vec::new();
    let mut i: usize = 0;
    while i < v.len()
        invariant
            i <= v@.len(),
            r@ == v@.take(i as int),
        decreases v@.len() - i,
    {
        r.push(v[i]);
        i = i + 1;
        assert(r@ =~= v@.take(i as int));
    }
    assert(v@.take(i as int) =~= v@);
    r
}

} // verus!
