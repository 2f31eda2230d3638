//! The image writer: allocates the tree, builds the path table, composes
//! the volume descriptors and lays every sector's content out as a list of
//! writes at byte offsets.

use vstd::prelude::*;
use crate::codec::{both16, both32, numerical_date_bytes, directory_record_bytes, directory_record_length, zeros, encode_directory_record, encode_path_table_record, path_record_bytes};
use crate::descriptor::{descriptor_bytes, encode_descriptor, terminator_bytes, PRIMARY_TYPE, SUPPLEMENTARY_TYPE};
use crate::error::Error;
use crate::iso9660::{
    DigitsDate, DirectoryRecord, EscapeSequences, FileFlags, FileStructureVersion, Identifier,
    IdentifierKind, JolietLevel, NumericalDate, PrimaryVolumeDescriptor, RootDirectoryRecord,
    StandardIdentifier, UtcTime, numerical_of, VolumeDescriptorSetTerminator, VolumeDescriptorVersion,
    MAX_IDENTIFIER_LENGTH,
};
use crate::layout::{dir_span, laid_out, sizes_fit};
use crate::records::address_or_zero;
use crate::shape::{
    lemma_children_same, lemma_laid_out_same_shape, lemma_same_shape_sizes, lemma_table_size,
    same_shape, table_count, table_size,
};
use crate::lba::sectors_for;
use crate::lba::LbaAllocator;
use crate::path_table::{dirs_addressed, table_of, PathTable};
use crate::iso9660::PathTableRecord;
use crate::tree::{
    DirectoryEntry, FileEntry, FileEntryContent, Filesystem, OnFileConflict, merged, valid_name,
};

verus! {

/// What a write puts at its offset.
#[derive(Debug)]
pub enum ChunkData {
    Bytes(Vec<u8>),
    /// The whole content of a file.
    Content(FileEntryContent),
}

/// One write of the image: `data` at byte `offset` of the sink.
#[derive(Debug)]
pub struct Chunk {
    pub offset: u64,
    pub data: ChunkData,
}

/// A laid-out image: the writes that produce it, in the order they are to
/// be made, and its size in sectors. The image is a sink of
/// `volume_space_size` sectors, zero wherever no write lands, after these
/// writes.
#[derive(Debug)]
pub struct Image {
    pub chunks: Vec<Chunk>,
    pub sector_size: u32,
    pub volume_space_size: u32,
}

/// Sectors a [`SectorWriter`] may reach, so that byte offsets stay within
/// 64 bits.
pub const SECTOR_LIMIT: u64 = 0x7fff_ffff_ffff;

/// Places records one after another in sectors, moving on to the next
/// sector where a record would cross the end of the current one.
#[derive(Debug)]
pub struct SectorWriter {
    pub sector_ix: u64,
    pub sector_size: u64,
    pub bytes_offset: u64,
}

impl SectorWriter {
    pub open spec fn wf(&self) -> bool {
        &&& 0 < self.sector_size <= 65536
        &&& self.bytes_offset <= self.sector_size
        &&& self.sector_ix < SECTOR_LIMIT
    }

    /// Whether `len` more bytes go to the next sector.
    pub open spec fn spills(&self, len: nat) -> bool {
        self.bytes_offset + len > self.sector_size
    }

    /// Byte offset at which `len` more bytes go.
    pub open spec fn spec_place(&self, len: nat) -> int {
        if self.spills(len) {
            (self.sector_ix + 1) * self.sector_size
        } else {
            self.sector_ix * self.sector_size + self.bytes_offset
        }
    }

    pub fn new(sector_offset: u64, sector_size: u64) -> (r: Self)
        requires
            0 < sector_size <= 65536,
            sector_offset < SECTOR_LIMIT,
        ensures
            r.wf(),
            r.sector_ix == sector_offset,
            r.sector_size == sector_size,
            r.bytes_offset == 0,
    {
        SectorWriter { sector_ix: sector_offset, sector_size, bytes_offset: 0 }
    }

    /// Appends a write of `buf` to `out`, in the current sector if it fits
    /// there and at the start of the next one otherwise.
    pub fn write_aligned(&mut self, buf: Vec<u8>, out: &mut Vec<Chunk>) -> (r: Result<(), Error>)
        requires
            old(self).wf(),
            buf@.len() <= old(self).sector_size,
        ensures
            r is Ok <==> !(old(self).spills(buf@.len()) && old(self).sector_ix + 1 >= SECTOR_LIMIT),
            r is Err ==> r == Err::<(), Error>(Error::ImageTooLarge),
            r is Ok ==> final(self).wf() && final(self).sector_size == old(self).sector_size
                && final(out)@ == old(out)@.push(
                Chunk { offset: old(self).spec_place(buf@.len()) as u64, data: ChunkData::Bytes(buf) },
            ) && (old(self).spills(buf@.len()) ==> final(self).sector_ix == old(self).sector_ix + 1
                && final(self).bytes_offset == buf@.len()) && (!old(self).spills(buf@.len())
                ==> final(self).sector_ix == old(self).sector_ix && final(self).bytes_offset
                == old(self).bytes_offset + buf@.len()),
            r is Ok ==> old(self).spec_place(buf@.len()) % (old(self).sector_size as int)
                + buf@.len() <= old(self).sector_size,
            r is Ok ==> 0 <= old(self).spec_place(buf@.len()) <= u64::MAX,
    {
        let len = buf.len() as u64;
        let offset: u64;
        if self.bytes_offset + len > self.sector_size {
            if self.sector_ix + 1 >= SECTOR_LIMIT {
                return Err(Error::ImageTooLarge);
            }
            self.sector_ix = self.sector_ix + 1;
            self.bytes_offset = 0;
            proof {
                lemma_offset_bound(self.sector_ix as int, self.sector_size as int, 0);
            }
            offset = self.sector_ix * self.sector_size;
        } else {
            proof {
                lemma_offset_bound(self.sector_ix as int, self.sector_size as int, self.bytes_offset as int);
            }
            offset = self.sector_ix * self.sector_size + self.bytes_offset;
        }
        proof {
            let ss = self.sector_size as int;
            let s = self.sector_ix as int;
            let b = self.bytes_offset as int;
            vstd::arithmetic::div_mod::lemma_mod_multiples_vanish(s, b, ss);
            assert(s * ss == ss * s) by (nonlinear_arith);
            vstd::arithmetic::div_mod::lemma_mod_multiples_vanish(s, 0, ss);
            if b < ss {
                vstd::arithmetic::div_mod::lemma_small_mod(b as nat, ss as nat);
            } else {
                vstd::arithmetic::div_mod::lemma_mod_multiples_vanish(1, 0, ss);
            }
        }
        self.bytes_offset = self.bytes_offset + len;
        out.push(Chunk { offset, data: ChunkData::Bytes(buf) });
        Ok(())
    }
}

proof fn lemma_offset_bound(s: int, ss: int, b: int)
    requires
        0 <= s < SECTOR_LIMIT,
        0 < ss <= 65536,
        0 <= b <= ss,
    ensures
        s * ss + b <= u64::MAX,
{
    assert(s * ss <= SECTOR_LIMIT * 65536) by (nonlinear_arith)
        requires 0 <= s < SECTOR_LIMIT, 0 < ss <= 65536;
}

/// `c` writes bytes that lie within one sector.
pub open spec fn in_one_sector(c: Chunk, ss: int) -> bool {
    c.data matches ChunkData::Bytes(b) && (c.offset as int) % ss + b@.len() <= ss
}

/// Appends the writes of one path table, Type M (big-endian) or Type L,
/// its records from sector `lba` on, none split across two sectors.
pub fn write_path_table(
    table: &PathTable,
    lba: u32,
    big_endian: bool,
    sector_size: u32,
    out: &mut Vec<Chunk>,
)
    requires
        2048 <= sector_size <= 65535,
        table.records@.len() <= crate::path_table::MAX_RECORDS,
        forall|k: int|
            0 <= k < table.records@.len() ==> (#[trigger] table.records@[k]).directory_identifier.bytes@.len()
                <= MAX_IDENTIFIER_LENGTH,
    ensures
        final(out)@.len() == old(out)@.len() + table.records@.len(),
        forall|k: int| 0 <= k < old(out)@.len() ==> final(out)@[k] == old(out)@[k],
        forall|k: int|
            0 <= k < table.records@.len() ==> in_one_sector(
                #[trigger] final(out)@[old(out)@.len() + k],
                sector_size as int,
            ) && (final(out)@[old(out)@.len() + k].data matches ChunkData::Bytes(b) && b@
                == path_record_bytes(table.records@[k], big_endian)),
        table.records@.len() > 0 ==> final(out)@[old(out)@.len() as int].offset == lba as int
            * sector_size as int,
{
    let mut sw = SectorWriter::new(lba as u64, sector_size as u64);
    let mut k: usize = 0;
    while k < table.records.len()
        invariant
            sw.wf(),
            sw.sector_size == sector_size as u64,
            2048 <= sector_size <= 65535,
            sw.sector_ix <= lba as int + k,
            k == 0 ==> sw.sector_ix == lba && sw.bytes_offset == 0,
            k <= table.records@.len(),
            table.records@.len() <= crate::path_table::MAX_RECORDS,
            forall|m: int|
                0 <= m < table.records@.len() ==> (#[trigger] table.records@[m]).directory_identifier.bytes@.len()
                    <= MAX_IDENTIFIER_LENGTH,
            out@.len() == old(out)@.len() + k,
            forall|m: int| 0 <= m < old(out)@.len() ==> out@[m] == old(out)@[m],
            forall|m: int|
                0 <= m < k ==> in_one_sector(#[trigger] out@[old(out)@.len() + m], sector_size as int)
                    && (out@[old(out)@.len() + m].data matches ChunkData::Bytes(b) && b@
                    == path_record_bytes(table.records@[m], big_endian)),
            k > 0 ==> out@[old(out)@.len() as int].offset == lba as int * sector_size as int,
        decreases table.records@.len() - k,
    {
        let bytes = encode_path_table_record(&table.records[k], big_endian);
        let ghost b = bytes@;
        let ghost before = sw;
        let r = sw.write_aligned(bytes, out);
        match r {
            Ok(()) => {},
            Err(_) => {
                assert(false);
            },
        }
        assert(out@[old(out)@.len() + k].data matches ChunkData::Bytes(bb) && bb@ == b);
        assert(in_one_sector(out@[old(out)@.len() + k], sector_size as int));
        proof {
            if k == 0 {
                assert(!before.spills(b.len()));
                assert(before.spec_place(b.len()) == lba as int * sector_size as int);
            }
        }
        k = k + 1;
    }
}

/// Every directory and file of the subtree has an address.
pub open spec fn addressed(d: DirectoryEntry) -> bool
    decreases d,
{
    &&& d.data_lba is Some
    &&& forall|j: int| 0 <= j < d.files@.len() ==> (#[trigger] d.files@[j]).data_lba is Some
    &&& forall|i: int| 0 <= i < d.dirs@.len() ==> addressed(#[trigger] d.dirs@[i])
}

/// Every name in the subtree fits a directory record.
pub open spec fn encodable(d: DirectoryEntry) -> bool
    decreases d,
{
    &&& forall|j: int| 0 <= j < d.files@.len() ==> (#[trigger] d.files@[j]).name@.len() <= 221
    &&& forall|i: int|
        0 <= i < d.dirs@.len() ==> (#[trigger] d.dirs@[i]).name@.len() <= 221 && encodable(
            d.dirs@[i],
        )
}

fn special_record(lba: u32, len: u32, date: NumericalDate, parent: bool) -> (r: DirectoryRecord)
    ensures
        r.extended_attribute_length == 0,
        r.extent_location == lba,
        r.data_length == len,
        r.recording_date == date,
        r.file_flags.bits == 2,
        r.file_unit_size == 0,
        r.interleave_gap_size == 0,
        r.volume_sequence_number == 1,
        r.file_identifier.bytes@ == (if parent { seq![1u8] } else { seq![0u8] }),
{
    DirectoryRecord {
        extended_attribute_length: 0,
        extent_location: lba,
        data_length: len,
        recording_date: date,
        file_flags: FileFlags::directory(),
        file_unit_size: 0,
        interleave_gap_size: 0,
        volume_sequence_number: 1,
        file_identifier: if parent {
            Identifier::parent_directory()
        } else {
            Identifier::current_directory()
        },
    }
}

/// The bytes of a directory's `.` (`id` 0) or `..` (`id` 1) record,
/// pointing at the extent at `lba` of `len` bytes.
pub open spec fn dot_bytes(lba: u32, len: u32, date: NumericalDate, id: u8) -> Seq<u8> {
    seq![34u8, 0u8] + both32(lba) + both32(len) + numerical_date_bytes(date) + seq![2u8, 0u8, 0u8]
        + both16(1) + seq![1u8, id]
}

/// The bytes of the record that lists an entry named `name` whose extent
/// at `lba` is `len` bytes long.
pub open spec fn entry_record_bytes(
    lba: u32,
    len: u32,
    date: NumericalDate,
    flags: u8,
    name: Seq<u8>,
) -> Seq<u8> {
    seq![directory_record_length(name.len()) as u8, 0u8] + both32(lba) + both32(len)
        + numerical_date_bytes(date) + seq![flags, 0u8, 0u8] + both16(1) + seq![name.len() as u8]
        + name + zeros((if name.len() % 2 == 0 { 1nat } else { 0nat }))
}

/// The records of the subdirectories of `dir`, in order, from `at` on.
pub open spec fn subdir_records_at(chunks: Seq<Chunk>, at: int, dir: DirectoryEntry, n: int, date: NumericalDate) -> bool {
    forall|i: int|
        0 <= i < n ==> ((#[trigger] chunks[at + i]).data matches ChunkData::Bytes(b) && b@
            == entry_record_bytes(
            address_or_zero(dir.dirs@[i].data_lba),
            dir.dirs@[i].spec_data_length() as u32,
            date,
            2,
            dir.dirs@[i].name@,
        ))
}

/// The records of the files of `dir`, in order, from `at` on.
pub open spec fn file_records_at(chunks: Seq<Chunk>, at: int, dir: DirectoryEntry, n: int, date: NumericalDate) -> bool {
    forall|j: int|
        0 <= j < n ==> ((#[trigger] chunks[at + j]).data matches ChunkData::Bytes(b) && b@
            == entry_record_bytes(
            address_or_zero(dir.files@[j].data_lba),
            dir.files@[j].content.spec_extent() as u32,
            date,
            0,
            dir.files@[j].name@,
        ))
}

/// Appends one record through `sw`.
fn put_record(sw: &mut SectorWriter, r: &DirectoryRecord, out: &mut Vec<Chunk>) -> (res: Result<(), Error>)
    requires
        old(sw).wf(),
        old(sw).sector_size >= 2048,
    ensures
        res is Err ==> res == Err::<(), Error>(Error::Encoding) || res == Err::<(), Error>(
            Error::ImageTooLarge,
        ),
        res is Ok ==> r.file_identifier.bytes@.len() <= 221,
        res is Ok ==> final(sw).wf() && final(sw).sector_size == old(sw).sector_size
            && final(out)@.len() == old(out)@.len() + 1 && (forall|k: int|
            0 <= k < old(out)@.len() ==> final(out)@[k] == old(out)@[k]) && in_one_sector(
            final(out)@[old(out)@.len() as int],
            old(sw).sector_size as int,
        ) && (final(out)@[old(out)@.len() as int].data matches ChunkData::Bytes(b) && b@
            == directory_record_bytes(*r)),
        res is Ok && old(sw).bytes_offset == 0 ==> final(out)@[old(out)@.len() as int].offset as int
            == old(sw).sector_ix * old(sw).sector_size,
        r.file_identifier.bytes@.len() <= 221 && old(sw).sector_ix + 1 < SECTOR_LIMIT ==> res is Ok,
        r.file_identifier.bytes@.len() > 221 ==> res == Err::<(), Error>(Error::Encoding),
        res is Ok ==> final(sw).sector_ix <= old(sw).sector_ix + 1,
{
    let bytes = match encode_directory_record(r) {
        Ok(b) => b,
        Err(e) => {
            return Err(Error::Encoding);
        },
    };
    proof {
        if r.file_identifier.bytes@.len() > 221 {
            assert(crate::codec::directory_record_length(r.file_identifier.bytes@.len()) > 255);
        }
    }
    let ghost b = bytes@;
    let ghost before = *sw;
    let res = sw.write_aligned(bytes, out);
    if res.is_err() {
        return Err(Error::ImageTooLarge);
    }
    assert(out@[old(out)@.len() as int].data matches ChunkData::Bytes(bb) && bb@ == b);
    Ok(())
}

/// The records of `dir` start at chunk `k`: `.` at the directory's address,
/// `..` pointing at `parent_lba` (`parent_len` bytes), then one record per
/// subdirectory and one per file.
pub open spec fn listed_at(
    chunks: Seq<Chunk>,
    k: int,
    dir: DirectoryEntry,
    parent_lba: u32,
    parent_len: u32,
    date: NumericalDate,
    ss: int,
) -> bool {
    &&& 0 <= k
    &&& k + 2 + dir.dirs@.len() + dir.files@.len() <= chunks.len()
    &&& chunks[k].offset as int == address_or_zero(dir.data_lba) * ss
    &&& chunks[k].data matches ChunkData::Bytes(b) && b@ == dot_bytes(
        address_or_zero(dir.data_lba),
        dir.spec_data_length() as u32,
        date,
        0,
    )
    &&& chunks[k + 1].data matches ChunkData::Bytes(b) && b@ == dot_bytes(
        parent_lba,
        parent_len,
        date,
        1,
    )
    &&& subdir_records_at(chunks, k + 2, dir, dir.dirs@.len() as int, date)
    &&& file_records_at(chunks, k + 2 + dir.dirs@.len(), dir, dir.files@.len() as int, date)
}

/// `chunks` lists the records of `dir` and, recursively, of every
/// directory below it, each subdirectory's `..` pointing at its parent.
pub open spec fn listed(
    chunks: Seq<Chunk>,
    dir: DirectoryEntry,
    parent_lba: u32,
    parent_len: u32,
    date: NumericalDate,
    ss: int,
) -> bool
    decreases dir,
{
    &&& exists|k: int| #[trigger] listed_at(chunks, k, dir, parent_lba, parent_len, date, ss)
    &&& forall|i: int|
        0 <= i < dir.dirs@.len() ==> listed(
            chunks,
            #[trigger] dir.dirs@[i],
            address_or_zero(dir.data_lba),
            dir.spec_data_length() as u32,
            date,
            ss,
        )
}

/// A listing stays a listing when writes are appended.
pub proof fn lemma_listed_extend(
    c1: Seq<Chunk>,
    c2: Seq<Chunk>,
    dir: DirectoryEntry,
    parent_lba: u32,
    parent_len: u32,
    date: NumericalDate,
    ss: int,
)
    requires
        listed(c1, dir, parent_lba, parent_len, date, ss),
        c1.len() <= c2.len(),
        forall|k: int| 0 <= k < c1.len() ==> #[trigger] c2[k] == c1[k],
    ensures
        listed(c2, dir, parent_lba, parent_len, date, ss),
    decreases dir,
{
    let k = choose|k: int| #[trigger] listed_at(c1, k, dir, parent_lba, parent_len, date, ss);
    assert(c2[k] == c1[k]);
    assert(c2[k + 1] == c1[k + 1]);
    assert forall|i: int| 0 <= i < dir.dirs@.len() implies #[trigger] c2[k + 2 + i] == c1[k + 2 + i] by {}
    assert forall|j: int| 0 <= j < dir.files@.len() implies #[trigger] c2[k + 2 + dir.dirs@.len() + j] == c1[k + 2 + dir.dirs@.len() + j] by {}
    assert(listed_at(c2, k, dir, parent_lba, parent_len, date, ss));
    assert forall|i: int| 0 <= i < dir.dirs@.len() implies listed(
        c2,
        #[trigger] dir.dirs@[i],
        address_or_zero(dir.data_lba),
        dir.spec_data_length() as u32,
        date,
        ss,
    ) by {
        lemma_listed_extend(
            c1,
            c2,
            dir.dirs@[i],
            address_or_zero(dir.data_lba),
            dir.spec_data_length() as u32,
            date,
            ss,
        );
    }
}

proof fn lemma_files_extent_count(fs: Seq<FileEntry>)
    ensures
        crate::tree::files_extent(fs) >= 34 * fs.len(),
    decreases fs.len(),
{
    if fs.len() > 0 {
        lemma_files_extent_count(fs.drop_last());
    }
}

proof fn lemma_dirs_extent_count(ds: Seq<DirectoryEntry>)
    ensures
        crate::tree::dirs_extent(ds) >= 34 * ds.len(),
    decreases ds.len(),
{
    if ds.len() > 0 {
        lemma_dirs_extent_count(ds.drop_last());
    }
}

/// Appends the records of `dir` at its address, `.` first, then `..`
/// pointing at `parent_lba` (`parent_len` bytes), then one record per
/// subdirectory and per file, none split across two sectors; then the
/// same for each subdirectory in turn. Succeeds exactly when every size in
/// the subtree fits in 32 bits and every name fits a record.
pub fn write_directory(
    dir: &DirectoryEntry,
    parent_lba: u32,
    parent_len: u32,
    sector_size: u32,
    date: NumericalDate,
    out: &mut Vec<Chunk>,
) -> (r: Result<(), Error>)
    requires
        dir.wf(),
        addressed(*dir),
        2048 <= sector_size <= 65535,
    ensures
        r is Ok <==> sizes_fit(*dir) && encodable(*dir),
        r is Err ==> r == Err::<(), Error>(Error::Encoding) || r == Err::<(), Error>(
            Error::ImageTooLarge,
        ),
        sizes_fit(*dir) && r is Err ==> r == Err::<(), Error>(Error::Encoding),
        r is Ok ==> final(out)@.len() >= old(out)@.len() + 2 + dir.dirs@.len() + dir.files@.len(),
        r is Ok ==> forall|k: int| 0 <= k < old(out)@.len() ==> final(out)@[k] == old(out)@[k],
        r is Ok ==> forall|k: int|
            old(out)@.len() <= k < final(out)@.len() ==> in_one_sector(
                #[trigger] final(out)@[k],
                sector_size as int,
            ),
        r is Ok ==> listed_at(
            final(out)@,
            old(out)@.len() as int,
            *dir,
            parent_lba,
            parent_len,
            date,
            sector_size as int,
        ),
        r is Ok ==> listed(final(out)@, *dir, parent_lba, parent_len, date, sector_size as int),
    decreases *dir,
{
    let lba = match dir.data_lba {
        Some(l) => l,
        None => 0,
    };
    let own_len = match dir.data_length() {
        Some(n) => n,
        None => {
            return Err(Error::ImageTooLarge);
        },
    };
    proof {
        lemma_files_extent_count(dir.files@);
        lemma_dirs_extent_count(dir.dirs@);
    }
    let mut sw = SectorWriter::new(lba as u64, sector_size as u64);
    let start: usize = out.len();
    let dot = special_record(lba, own_len, date, false);
    match put_record(&mut sw, &dot, out) {
        Ok(()) => {},
        Err(e) => {
            return Err(e);
        },
    }
    let dotdot = special_record(parent_lba, parent_len, date, true);
    match put_record(&mut sw, &dotdot, out) {
        Ok(()) => {},
        Err(e) => {
            return Err(e);
        },
    }
    proof {
        assert(dot.file_identifier.bytes@.len() == 1);
        assert(directory_record_bytes(dot) =~= dot_bytes(lba, own_len, date, 0));
        assert(directory_record_bytes(dotdot) =~= dot_bytes(parent_lba, parent_len, date, 1));
    }
    let ghost n = dir.dirs@.len() as int;
    let ghost m = dir.files@.len() as int;
    let mut i: usize = 0;
    while i < dir.dirs.len()
        invariant
            dir.wf(),
            addressed(*dir),
            sw.wf(),
            sw.sector_size == sector_size as u64,
            2048 <= sector_size <= 65535,
            n == dir.dirs@.len(),
            m == dir.files@.len(),
            34 * (n + m) + 68 <= u32::MAX,
            sw.sector_ix <= lba + 2 + i,
            i <= dir.dirs@.len(),
            start == old(out)@.len(),
            out@.len() == start + 2 + i,
            own_len == dir.spec_data_length(),
            subdir_records_at(out@, start + 2, *dir, i as int, date),
            forall|k: int| 0 <= k < start ==> out@[k] == old(out)@[k],
            forall|k: int| start <= k < out@.len() ==> in_one_sector(#[trigger] out@[k], sector_size as int),
            out@[start as int].offset as int == lba * sector_size,
            out@[start as int].data matches ChunkData::Bytes(b) && b@ == dot_bytes(lba, own_len, date, 0),
            out@[start + 1].data matches ChunkData::Bytes(b) && b@ == dot_bytes(parent_lba, parent_len, date, 1),
            dir.data_lba == Some(lba),
            forall|q: int| 0 <= q < i ==> (#[trigger] dir.dirs@[q]).name@.len() <= 221
                && dir.dirs@[q].spec_data_length() <= u32::MAX,
        decreases dir.dirs@.len() - i,
    {
        let sub = &dir.dirs[i];
        proof {
            assert(valid_name(dir.dirs@[i as int].name@));
            assert(dir.dirs@[i as int].wf());
        }
        let rec = match sub.directory_record(date) {
            Ok(rec) => rec,
            Err(e) => {
                assert(!sizes_fit(dir.dirs@[i as int]));
                return Err(e);
            },
        };
        match put_record(&mut sw, &rec, out) {
            Ok(()) => {},
            Err(e) => {
                assert(dir.dirs@[i as int].name@.len() > 221);
                return Err(e);
            },
        }
        proof {
            assert(directory_record_bytes(rec) =~= entry_record_bytes(
                address_or_zero(dir.dirs@[i as int].data_lba),
                dir.dirs@[i as int].spec_data_length() as u32,
                date,
                2,
                dir.dirs@[i as int].name@,
            ));
        }
        i = i + 1;
    }
    let mut j: usize = 0;
    while j < dir.files.len()
        invariant
            dir.wf(),
            addressed(*dir),
            sw.wf(),
            sw.sector_size == sector_size as u64,
            2048 <= sector_size <= 65535,
            n == dir.dirs@.len(),
            m == dir.files@.len(),
            34 * (n + m) + 68 <= u32::MAX,
            sw.sector_ix <= lba + 2 + n + j,
            j <= dir.files@.len(),
            start == old(out)@.len(),
            out@.len() == start + 2 + n + j,
            own_len == dir.spec_data_length(),
            subdir_records_at(out@, start + 2, *dir, n, date),
            file_records_at(out@, start + 2 + n, *dir, j as int, date),
            forall|k: int| 0 <= k < start ==> out@[k] == old(out)@[k],
            forall|k: int| start <= k < out@.len() ==> in_one_sector(#[trigger] out@[k], sector_size as int),
            out@[start as int].offset as int == lba * sector_size,
            out@[start as int].data matches ChunkData::Bytes(b) && b@ == dot_bytes(lba, own_len, date, 0),
            out@[start + 1].data matches ChunkData::Bytes(b) && b@ == dot_bytes(parent_lba, parent_len, date, 1),
            dir.data_lba == Some(lba),
            forall|q: int| 0 <= q < n ==> (#[trigger] dir.dirs@[q]).name@.len() <= 221
                && dir.dirs@[q].spec_data_length() <= u32::MAX,
            forall|q: int| 0 <= q < j ==> (#[trigger] dir.files@[q]).name@.len() <= 221
                && dir.files@[q].content.spec_extent() <= u32::MAX,
        decreases dir.files@.len() - j,
    {
        let f = &dir.files[j];
        proof {
            assert(valid_name(dir.files@[j as int].name@));
        }
        let rec = match f.directory_record(date) {
            Ok(rec) => rec,
            Err(e) => {
                assert(!((dir.files@[j as int]).content.spec_extent() <= u32::MAX));
                return Err(e);
            },
        };
        match put_record(&mut sw, &rec, out) {
            Ok(()) => {},
            Err(e) => {
                assert(dir.files@[j as int].name@.len() > 221);
                return Err(e);
            },
        }
        proof {
            assert(directory_record_bytes(rec) =~= entry_record_bytes(
                address_or_zero(dir.files@[j as int].data_lba),
                dir.files@[j as int].content.spec_extent() as u32,
                date,
                0,
                dir.files@[j as int].name@,
            ));
        }
        j = j + 1;
    }
    assert(listed_at(out@, start as int, *dir, parent_lba, parent_len, date, sector_size as int));
    let mut i: usize = 0;
    while i < dir.dirs.len()
        invariant
            dir.wf(),
            addressed(*dir),
            2048 <= sector_size <= 65535,
            n == dir.dirs@.len(),
            m == dir.files@.len(),
            i <= dir.dirs@.len(),
            start == old(out)@.len(),
            out@.len() >= start + 2 + n + m,
            own_len == dir.spec_data_length(),
            dir.data_lba == Some(lba),
            listed_at(out@, start as int, *dir, parent_lba, parent_len, date, sector_size as int),
            forall|k: int| 0 <= k < start ==> out@[k] == old(out)@[k],
            forall|k: int| start <= k < out@.len() ==> in_one_sector(#[trigger] out@[k], sector_size as int),
            forall|q: int| 0 <= q < n ==> (#[trigger] dir.dirs@[q]).name@.len() <= 221
                && dir.dirs@[q].spec_data_length() <= u32::MAX,
            forall|q: int| 0 <= q < m ==> (#[trigger] dir.files@[q]).name@.len() <= 221
                && dir.files@[q].content.spec_extent() <= u32::MAX,
            forall|q: int| 0 <= q < i ==> encodable(#[trigger] dir.dirs@[q]) && sizes_fit(dir.dirs@[q])
                && listed(out@, dir.dirs@[q], lba, own_len, date, sector_size as int),
        decreases dir.dirs@.len() - i,
    {
        proof {
            assert(valid_name(dir.dirs@[i as int].name@));
            assert(addressed(dir.dirs@[i as int]));
        }
        let ghost before = out@;
        let res = write_directory(&dir.dirs[i], lba, own_len, sector_size, date, out);
        match res {
            Ok(()) => {},
            Err(e) => {
                proof {
                    assert(!(sizes_fit(dir.dirs@[i as int]) && encodable(dir.dirs@[i as int])));
                    if sizes_fit(*dir) {
                        assert(sizes_fit(dir.dirs@[i as int]));
                    }
                }
                return Err(e);
            },
        }
        proof {
            let k0 = start as int;
            assert forall|t: int| 0 <= t < before.len() implies #[trigger] out@[t] == before[t] by {}
            assert(out@[k0] == before[k0]);
            assert(out@[k0 + 1] == before[k0 + 1]);
            assert forall|t: int| 0 <= t < n implies #[trigger] out@[k0 + 2 + t] == before[k0 + 2 + t] by {}
            assert forall|t: int| 0 <= t < m implies #[trigger] out@[k0 + 2 + n + t] == before[k0 + 2 + n + t] by {}
            assert(listed_at(out@, k0, *dir, parent_lba, parent_len, date, sector_size as int));
            assert forall|q: int| 0 <= q < i + 1 implies encodable(#[trigger] dir.dirs@[q]) && sizes_fit(dir.dirs@[q])
                && listed(out@, dir.dirs@[q], lba, own_len, date, sector_size as int) by {
                if q < i {
                    lemma_listed_extend(before, out@, dir.dirs@[q], lba, own_len, date, sector_size as int);
                }
            }
        }
        i = i + 1;
    }
    proof {
        assert(sizes_fit(*dir));
        assert(encodable(*dir));
        assert(listed(out@, *dir, parent_lba, parent_len, date, sector_size as int));
    }
    Ok(())
}

pub open spec fn lba_or_zero(f: FileEntry) -> int {
    match f.data_lba {
        Some(l) => l as int,
        None => 0,
    }
}

/// The write of a file's whole content at its address.
pub open spec fn file_chunk(f: FileEntry, ss: int) -> Chunk {
    Chunk { offset: (lba_or_zero(f) * ss) as u64, data: ChunkData::Content(f.content) }
}

/// The writes of every file content of the subtree: those of each
/// subdirectory's subtree in order, then those of its own files.
pub open spec fn content_chunks(d: DirectoryEntry, ss: int) -> Seq<Chunk>
    decreases d,
{
    dirs_content_chunks(d.dirs@, ss) + d.files@.map_values(|f: FileEntry| file_chunk(f, ss))
}

pub open spec fn dirs_content_chunks(ds: Seq<DirectoryEntry>, ss: int) -> Seq<Chunk>
    decreases ds,
{
    if ds.len() == 0 {
        seq![]
    } else {
        dirs_content_chunks(ds.drop_last(), ss) + content_chunks(ds.last(), ss)
    }
}

/// Appends the writes of every file content of `d`, consuming the tree.
pub fn collect_contents(d: DirectoryEntry, sector_size: u32, out: &mut Vec<Chunk>)
    ensures
        final(out)@ == old(out)@ + content_chunks(d, sector_size as int),
    decreases d,
{
    let ghost orig = d;
    let ghost ss = sector_size as int;
    let DirectoryEntry { data_lba: _, name: _, dirs, files } = d;
    let mut dirs = dirs;
    let ghost mut t: int = 0;
    while dirs.len() > 0
        invariant
            0 <= t <= orig.dirs@.len(),
            orig == d,
            dirs@ == orig.dirs@.skip(t),
            ss == sector_size as int,
            out@ == old(out)@ + dirs_content_chunks(orig.dirs@.take(t), ss),
        decreases dirs@.len(),
    {
        let sub = dirs.remove(0);
        proof {
            assert(sub == orig.dirs@[t]);
            assert(decreases_to!(orig => orig.dirs));
            assert(decreases_to!(orig.dirs => orig.dirs[t]));
            assert(orig.dirs@.take(t + 1).drop_last() =~= orig.dirs@.take(t));
        }
        collect_contents(sub, sector_size, out);
        proof {
            t = t + 1;
        }
    }
    assert(orig.dirs@.take(t) =~= orig.dirs@);
    let ghost mid = out@;
    let mut files = files;
    let ghost mut u: int = 0;
    while files.len() > 0
        invariant
            0 <= u <= orig.files@.len(),
            files@ == orig.files@.skip(u),
            ss == sector_size as int,
            out@ == mid + orig.files@.take(u).map_values(|f: FileEntry| file_chunk(f, ss)),
        decreases files@.len(),
    {
        let f = files.remove(0);
        let lba: u64 = match f.data_lba {
            Some(l) => l as u64,
            None => 0,
        };
        proof {
            assert(f == orig.files@[u]);
            assert(lba * (sector_size as u64) <= u64::MAX) by (nonlinear_arith)
                requires lba <= u32::MAX, sector_size <= u32::MAX;
        }
        let FileEntry { data_lba: _, name: _, content } = f;
        out.push(Chunk { offset: lba * sector_size as u64, data: ChunkData::Content(content) });
        proof {
            assert(out@ =~= mid + orig.files@.take(u + 1).map_values(|f: FileEntry| file_chunk(f, ss)));
            u = u + 1;
        }
    }
    assert(orig.files@.take(u) =~= orig.files@);
    assert(out@ =~= old(out)@ + content_chunks(orig, ss));
}

proof fn lemma_laid_out_addressed(b: DirectoryEntry, a: DirectoryEntry, start: int, ss: int)
    requires
        laid_out(b, a, start, ss),
    ensures
        addressed(a),
        dirs_addressed(a),
    decreases b,
{
    assert forall|i: int| 0 <= i < a.dirs@.len() implies addressed(#[trigger] a.dirs@[i]) && dirs_addressed(a.dirs@[i]) by {
        let own = crate::lba::sectors_for(b.spec_data_length() as int, ss);
        lemma_laid_out_addressed(b.dirs@[i], a.dirs@[i], start + own + crate::layout::dirs_span(b.dirs@.take(i), ss), ss);
    }
    assert forall|j: int| 0 <= j < a.files@.len() implies (#[trigger] a.files@[j]).data_lba is Some by {
    }
}

/// Options of an image.
#[derive(Debug, Clone, Copy, PartialEq, Eq, Structural)]
pub struct IsoWriterOptions {
    /// Whether a supplementary (Joliet) volume descriptor is written.
    pub joliet: bool,
    /// Bytes per sector.
    pub sector_size: u32,
}

impl IsoWriterOptions {
    /// Plain ISO 9660 with 2048-byte sectors.
    pub fn compatibility() -> (r: Self)
        ensures
            !r.joliet,
            r.sector_size == 2048,
    {
        IsoWriterOptions { joliet: false, sector_size: 2048 }
    }
}

impl Default for IsoWriterOptions {
    /// Joliet with 2048-byte sectors.
    fn default() -> (r: Self)
        ensures
            r.joliet,
            r.sector_size == 2048,
    {
        IsoWriterOptions { joliet: true, sector_size: 2048 }
    }
}

/// Options of an image, under the name the builder gives them.
pub type IsoBuilderOptions = IsoWriterOptions;

/// The standard an image follows.
#[derive(Debug, Clone, Copy, PartialEq, Eq, Structural)]
pub enum Standard {
    Iso9660,
}

impl Standard {
    pub fn standard_identifier(&self) -> (r: StandardIdentifier)
        ensures
            r.spec_bytes() == StandardIdentifier::Cd001.spec_bytes(),
    {
        match self {
            Standard::Iso9660 => StandardIdentifier::Cd001,
        }
    }
}

/// Options naming the standard and the sector size.
#[derive(Debug, Clone, Copy, PartialEq, Eq, Structural)]
pub struct WriterOptions {
    pub sector_size: u16,
    pub standard: Standard,
}

/// Builds an image from a filesystem.
#[derive(Debug)]
pub struct IsoWriter {
    pub options: IsoWriterOptions,
    pub filesystem: Filesystem,
}

/// From index `at` on, `chunks` holds the Type L path table of the tree
/// `root`, one write per record, then its Type M table.
pub open spec fn tables_listed(chunks: Seq<Chunk>, at: int, root: DirectoryEntry) -> bool {
    exists|recs: Seq<PathTableRecord>|
        #[trigger] table_of(root, recs) && at + 2 * recs.len() <= chunks.len() && (forall|k: int|
            0 <= k < recs.len() ==> ((#[trigger] chunks[at + k]).data matches ChunkData::Bytes(b)
                && b@ == path_record_bytes(recs[k], false))) && (forall|k: int|
            0 <= k < recs.len() ==> ((#[trigger] chunks[at + recs.len() + k]).data matches ChunkData::Bytes(
                b,
            ) && b@ == path_record_bytes(recs[k], true)))
}

/// Every step of laying out the tree `root` from sector `first` on fits:
/// its sizes and addresses fit in 32 bits, the path table numbers its
/// records in 16 bits, and both path tables fit after the tree.
pub open spec fn layout_fits(root: DirectoryEntry, first: int, ss: int) -> bool {
    &&& sizes_fit(root)
    &&& first + dir_span(root, ss) <= u32::MAX
    &&& table_count(root) <= crate::path_table::MAX_RECORDS
    &&& first + dir_span(root, ss) + 2 * sectors_for(table_size(root) as int, ss) <= u32::MAX
}

/// `pvd` describes the tree `root` laid out from sector `first` on, its
/// path tables right after it, the root's record dated `date`.
pub open spec fn primary_matches(
    pvd: PrimaryVolumeDescriptor,
    root: DirectoryEntry,
    first: int,
    ss: int,
    date: NumericalDate,
) -> bool {
    let end = first + dir_span(root, ss);
    let ts = sectors_for(table_size(root) as int, ss);
    &&& pvd.standard_identifier.spec_bytes() == StandardIdentifier::Cd001.spec_bytes()
    &&& pvd.volume_space_size == end + 2 * ts
    &&& pvd.logical_block_size == ss
    &&& pvd.path_table_size == table_size(root)
    &&& pvd.type_l_path_table_location == end
    &&& pvd.type_m_path_table_location == end + ts
    &&& pvd.root_directory_record.extent_location == first
    &&& pvd.root_directory_record.data_length == root.spec_data_length()
    &&& pvd.root_directory_record.recording_date == date
}

/// First sector after the system area, the descriptors and the terminator.
pub open spec fn first_free_sector(joliet: bool) -> int {
    16 + 1 + (if joliet { 1int } else { 0int }) + 1
}

/// The bytes of an identifier field.
fn text(kind: IdentifierKind, bytes: Vec<u8>) -> (r: Identifier)
    ensures
        r.kind == kind,
        r.bytes == bytes,
{
    Identifier { kind, bytes }
}

/// The primary volume descriptor of an image.
fn compose_primary(
    ss: u32,
    table_size: u32,
    l_lba: u32,
    m_lba: u32,
    root: RootDirectoryRecord,
    space: u32,
    now: UtcTime,
) -> (r: PrimaryVolumeDescriptor)
    requires
        2048 <= ss <= 65535,
        now.wf(),
    ensures
        crate::descriptor::fields_fit(r),
        r.volume_space_size == space,
        r.logical_block_size == ss,
        r.path_table_size == table_size,
        r.type_l_path_table_location == l_lba,
        r.type_m_path_table_location == m_lba,
        r.root_directory_record == root,
        r.standard_identifier.spec_bytes() == StandardIdentifier::Cd001.spec_bytes(),
{
    let stamp = DigitsDate::from_time(now);
    let isofs = vec![0x49u8, 0x53, 0x4f, 0x46, 0x53];
    PrimaryVolumeDescriptor {
        standard_identifier: StandardIdentifier::Cd001,
        version: VolumeDescriptorVersion::Standard,
        system_identifier: text(IdentifierKind::A1Characters, vec![0x4cu8, 0x49, 0x4e, 0x55, 0x58]),
        volume_identifier: text(IdentifierKind::D1Characters, isofs.clone()),
        volume_space_size: space,
        volume_set_size: 1,
        volume_sequence_number: 1,
        logical_block_size: ss as u16,
        path_table_size: table_size,
        type_l_path_table_location: l_lba,
        optional_type_l_path_table_location: l_lba,
        type_m_path_table_location: m_lba,
        optional_type_m_path_table_location: m_lba,
        root_directory_record: root,
        volume_set_identifier: text(IdentifierKind::D1Characters, isofs.clone()),
        publisher_identifier: text(IdentifierKind::A1Characters, isofs.clone()),
        data_preparer_identifier: text(IdentifierKind::A1Characters, isofs.clone()),
        application_identifier: text(IdentifierKind::A1Characters, isofs.clone()),
        copyright_file_identifier: text(IdentifierKind::D1Characters, isofs.clone()),
        abstract_file_identifier: text(IdentifierKind::D1Characters, isofs.clone()),
        bibliographic_file_identifier: text(IdentifierKind::D1Characters, isofs),
        creation_date: stamp,
        modification_date: stamp,
        expiration_date: stamp,
        effective_date: stamp,
        file_structure_version: FileStructureVersion::Standard,
    }
}

/// The writes of the volume descriptor set: the primary descriptor at
/// sector 16, the supplementary one after it where `joliet` holds, then the
/// terminator.
fn descriptor_chunks(pvd: &PrimaryVolumeDescriptor, joliet: bool, ss: u32) -> (r: Vec<Chunk>)
    requires
        crate::descriptor::fields_fit(*pvd),
        2048 <= ss <= 65535,
    ensures
        r@.len() == if joliet { 3int } else { 2int },
        r@[0].offset == 16 * ss && (r@[0].data matches ChunkData::Bytes(b) && b@ == descriptor_bytes(
            *pvd,
            PRIMARY_TYPE,
            0,
            Seq::new(32, |i: int| 0u8),
        ) && b@.len() == 2048 && b@[0] == PRIMARY_TYPE),
        joliet ==> r@[1].offset == 17 * ss && (r@[1].data matches ChunkData::Bytes(b) && b@.len()
            == 2048 && b@[0] == SUPPLEMENTARY_TYPE),
        r@[r@.len() - 1].offset == (if joliet { 18 * ss } else { 17 * ss }) && (r@[r@.len()
            - 1].data matches ChunkData::Bytes(b) && b@ == terminator_bytes()),
{
    let mut chunks: Vec<Chunk> = Vec::new();
    let plain = [0u8; 32];
    assert(plain@ =~= Seq::new(32, |i: int| 0u8));
    let primary = encode_descriptor(pvd, PRIMARY_TYPE, 0, plain.as_slice());
    chunks.push(Chunk { offset: 16 * ss as u64, data: ChunkData::Bytes(primary) });
    if joliet {
        let escapes = EscapeSequences::joliet(JolietLevel::Level3);
        let supplementary = encode_descriptor(pvd, SUPPLEMENTARY_TYPE, 0, escapes.bytes.as_slice());
        chunks.push(Chunk { offset: 17 * ss as u64, data: ChunkData::Bytes(supplementary) });
    }
    let terminator = VolumeDescriptorSetTerminator.encode();
    let term_sector: u64 = if joliet { 18 } else { 17 };
    chunks.push(Chunk { offset: term_sector * ss as u64, data: ChunkData::Bytes(terminator) });
    chunks
}

impl IsoWriter {
    pub open spec fn wf(&self) -> bool {
        self.filesystem.wf()
    }

    pub fn new(options: IsoWriterOptions) -> (r: Self)
        ensures
            r.wf(),
            r.options == options,
            r.filesystem.root.dir.dirs@.len() == 0,
            r.filesystem.root.dir.files@.len() == 0,
            r.filesystem.root.dir.data_lba is None,
    {
        IsoWriter { options, filesystem: Filesystem::new() }
    }

    pub fn options(&self) -> (r: &IsoWriterOptions)
        ensures
            *r == self.options,
    {
        &self.options
    }

    /// Merges `filesystem` into the one already held, clashes settled by
    /// `on_file_conflict`.
    pub fn upsert_filesystem<F: Fn(FileEntry, FileEntry) -> FileEntry>(
        &mut self,
        filesystem: Filesystem,
        on_file_conflict: &OnFileConflict<F>,
    ) -> (r: Result<(), Error>)
        requires
            old(self).wf(),
            filesystem.wf(),
            on_file_conflict.ready(),
        ensures
            r is Ok,
            final(self).wf(),
            final(self).options == old(self).options,
            merged(
                old(self).filesystem.root.dir,
                filesystem.root.dir,
                final(self).filesystem.root.dir,
                *on_file_conflict,
            ),
    {
        self.filesystem.merge(filesystem, on_file_conflict)
    }

    /// Lays the image out: assigns addresses to the tree, builds and places
    /// the path tables, composes the descriptors (dated `now`), and lists
    /// the writes of the descriptors, the path tables, the directory
    /// records and the file contents.
    #[verifier::rlimit(50)]
    pub fn finalize(self, now: UtcTime) -> (r: Result<Image, Error>)
        requires
            self.wf(),
            now.wf(),
        ensures
            r == Err::<Image, Error>(Error::InvalidSectorSize) <==> !(2048 <= self.options.sector_size
                <= 65535),
            r == Err::<Image, Error>(Error::ImageTooLarge) <==> 2048 <= self.options.sector_size
                <= 65535 && !layout_fits(
                self.filesystem.root.dir,
                first_free_sector(self.options.joliet),
                self.options.sector_size as int,
            ),
            r == Err::<Image, Error>(Error::Encoding) <==> 2048 <= self.options.sector_size <= 65535
                && layout_fits(
                self.filesystem.root.dir,
                first_free_sector(self.options.joliet),
                self.options.sector_size as int,
            ) && !encodable(self.filesystem.root.dir),
            r is Ok <==> 2048 <= self.options.sector_size <= 65535 && layout_fits(
                self.filesystem.root.dir,
                first_free_sector(self.options.joliet),
                self.options.sector_size as int,
            ) && encodable(self.filesystem.root.dir),
            r matches Ok(img) ==> img.sector_size == self.options.sector_size && exists|a: DirectoryEntry|
                #[trigger] laid_out(
                    self.filesystem.root.dir,
                    a,
                    first_free_sector(self.options.joliet),
                    self.options.sector_size as int,
                ) && img.chunks@.len() >= content_chunks(a, self.options.sector_size as int).len() + 2
                    && img.chunks@.skip(
                    img.chunks@.len() - content_chunks(a, self.options.sector_size as int).len(),
                ) == content_chunks(a, self.options.sector_size as int) && listed(
                    img.chunks@,
                    a,
                    first_free_sector(self.options.joliet) as u32,
                    self.filesystem.root.dir.spec_data_length() as u32,
                    numerical_of(now),
                    self.options.sector_size as int,
                ) && tables_listed(img.chunks@, if self.options.joliet { 3 } else { 2 }, a),
            r matches Ok(img) ==> img.chunks@[0].offset == 16 * self.options.sector_size && exists|
                pvd: PrimaryVolumeDescriptor,
            |
                #[trigger] primary_matches(
                    pvd,
                    self.filesystem.root.dir,
                    first_free_sector(self.options.joliet),
                    self.options.sector_size as int,
                    numerical_of(now),
                ) && (img.chunks@[0].data matches ChunkData::Bytes(b) && b@ == descriptor_bytes(
                    pvd,
                    PRIMARY_TYPE,
                    0,
                    Seq::new(32, |i: int| 0u8),
                ) && b@.len() == 2048),
            r matches Ok(img) ==> (if self.options.joliet {
                img.chunks@[1].offset == 17 * self.options.sector_size && (
                img.chunks@[1].data matches ChunkData::Bytes(b) && b@.len() == 2048 && b@[0] == 2)
                && img.chunks@[2].offset == 18 * self.options.sector_size && (
                img.chunks@[2].data matches ChunkData::Bytes(b) && b@ == terminator_bytes())
            } else {
                img.chunks@[1].offset == 17 * self.options.sector_size && (
                img.chunks@[1].data matches ChunkData::Bytes(b) && b@ == terminator_bytes())
            }),
    {
        let ss = self.options.sector_size;
        let ghost orig_root = self.filesystem.root.dir;
        if ss < 2048 || ss > 65535 {
            return Err(Error::InvalidSectorSize);
        }
        let joliet = self.options.joliet;
        let first: u32 = if joliet { 19 } else { 18 };
        let ghost fs_ = first as int;
        assert(fs_ == first_free_sector(joliet));
        let mut allocator = LbaAllocator::new(ss, first);
        let IsoWriter { options: _, filesystem } = self;
        let mut fs = filesystem;
        let ghost before = fs.root.dir;
        match fs.root.dir.allocate_lbas(&mut allocator) {
            Ok(()) => {},
            Err(_) => {
                return Err(Error::ImageTooLarge);
            },
        }
        let ghost laid = fs.root.dir;
        let ghost end = fs_ + dir_span(before, ss as int);
        proof {
            lemma_laid_out_addressed(before, laid, fs_, ss as int);
            lemma_laid_out_same_shape(before, laid, fs_, ss as int);
            lemma_same_shape_sizes(laid, before);
            lemma_children_same(laid.dirs@, before.dirs@, 1, 2);
            assert forall|i: int| 0 <= i < before.dirs@.len() implies same_shape(#[trigger] laid.dirs@[i], before.dirs@[i]) by {}
            assert(table_count(laid) == table_count(before));
            assert(table_size(laid) == table_size(before));
        }
        let table = match PathTable::from_filesystem(&fs) {
            Some(t) => t,
            None => {
                return Err(Error::ImageTooLarge);
            },
        };
        proof {
            lemma_table_size(laid, table.records@);
        }
        if !allocator.fits(table.size) {
            return Err(Error::ImageTooLarge);
        }
        let l_lba = table.allocate_l_lba(&mut allocator);
        if !allocator.fits(table.size) {
            return Err(Error::ImageTooLarge);
        }
        let m_lba = table.allocate_m_lba(&mut allocator);
        let recorded = NumericalDate::from_time(now);
        let root_record = match fs.root.root_directory_record(recorded) {
            Ok(rec) => rec,
            Err(e) => {
                return Err(e);
            },
        };
        let root_lba = root_record.extent_location;
        let root_len = root_record.data_length;
        let pvd = compose_primary(ss, table.size, l_lba, m_lba, root_record, allocator.next_lba(), now);
        assert(primary_matches(pvd, before, fs_, ss as int, numerical_of(now)));
        let mut chunks = descriptor_chunks(&pvd, joliet, ss);
        let ghost head = chunks@;
        write_path_table(&table, l_lba, false, ss, &mut chunks);
        let ghost after_l = chunks@;
        write_path_table(&table, m_lba, true, ss, &mut chunks);
        let ghost after_m = chunks@;
        let ghost at = chunks@.len() as int;
        match write_directory(&fs.root.dir, root_lba, root_len, ss, recorded, &mut chunks) {
            Ok(()) => {},
            Err(e) => {
                return Err(e);
            },
        }
        let ghost mid = chunks@;
        let Filesystem { root } = fs;
        collect_contents(root.dir, ss, &mut chunks);
        proof {
            let cc = content_chunks(laid, ss as int);
            assert(chunks@.skip(chunks@.len() - cc.len()) =~= cc);
            assert(laid_out(orig_root, laid, first_free_sector(joliet), ss as int));
            assert(chunks@.len() >= cc.len() + 2);
            assert forall|k: int| 0 <= k < mid.len() implies #[trigger] chunks@[k] == mid[k] by {}
            lemma_listed_extend(mid, chunks@, laid, root_lba, root_len, recorded, ss as int);
            let recs = table.records@;
            let n = recs.len() as int;
            assert forall|k: int| 0 <= k < n implies (#[trigger] chunks@[head.len() + k]).data matches ChunkData::Bytes(b)
                && b@ == path_record_bytes(recs[k], false) by {
                assert(chunks@[head.len() + k] == after_l[head.len() + k]);
            }
            assert forall|k: int| 0 <= k < n implies (#[trigger] chunks@[head.len() + n + k]).data matches ChunkData::Bytes(b)
                && b@ == path_record_bytes(recs[k], true) by {
                assert(chunks@[head.len() + n + k] == after_m[head.len() + n + k]);
            }
            assert(tables_listed(chunks@, head.len() as int, laid));
            assert(chunks@[0] == head[0]);
            assert(chunks@[1] == head[1]);
            if joliet {
                assert(chunks@[2] == head[2]);
            }
        }
        Ok(Image { chunks, sector_size: ss, volume_space_size: allocator.next_lba() })
    }
}


} // verus!
