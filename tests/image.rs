use isofs::codec::encode_directory_record;
use isofs::error::Error;
use isofs::iso9660::{
    ElToritoBootIndicator, ElToritoEmulationType, ElToritoPlatformId, RecordFormat,
    VolumeDescriptorType, DigitsDate, DirectoryRecord, FileFlags, Identifier, IdentifierKind, NumericalDate,
    StandardIdentifier, UtcTime,
};
use isofs::lba::LbaAllocator;
use isofs::path::{names_of, IsoPath};
use isofs::path_table::PathTable;
use isofs::tree::{RootDirectory, DirectoryEntry, FileEntry, FileEntryContent, Filesystem, OnFileConflict};
use isofs::writer::{ChunkData, Image, IsoWriter, IsoWriterOptions, SectorWriter};

type Policy = OnFileConflict<fn(FileEntry, FileEntry) -> FileEntry>;

fn now() -> UtcTime {
    UtcTime { year: 2024, month: 5, day: 17, hour: 13, minute: 45, second: 9, millisecond: 250 }
}

fn bytes(s: &str) -> FileEntryContent {
    FileEntryContent::from_bytes(s.as_bytes().to_vec())
}

fn content_bytes(f: &FileEntry) -> Vec<u8> {
    match f.content() {
        FileEntryContent::InMemory(v) => v.clone(),
        FileEntryContent::Host { .. } => panic!("expected bytes in memory"),
    }
}

fn file<'a>(d: &'a DirectoryEntry, name: &str) -> &'a FileEntry {
    d.files().iter().find(|f| f.name() == name.as_bytes()).expect("file present")
}

fn subdir<'a>(d: &'a DirectoryEntry, name: &str) -> &'a DirectoryEntry {
    d.dirs().iter().find(|s| s.name() == name.as_bytes()).expect("directory present")
}

/// Plays the writes of an image into a buffer.
fn render(img: &Image) -> Vec<u8> {
    let mut out: Vec<u8> = Vec::new();
    for c in &img.chunks {
        let data: Vec<u8> = match &c.data {
            ChunkData::Bytes(b) => b.clone(),
            ChunkData::Content(FileEntryContent::InMemory(v)) => v.clone(),
            ChunkData::Content(FileEntryContent::Host { .. }) => panic!("no host files here"),
        };
        let end = c.offset as usize + data.len();
        if out.len() < end {
            out.resize(end, 0);
        }
        out[c.offset as usize..end].copy_from_slice(&data);
    }
    let total = img.volume_space_size as usize * img.sector_size as usize;
    if out.len() < total {
        out.resize(total, 0);
    }
    out
}

fn sample() -> Filesystem {
    let mut fs = Filesystem::new();
    fs.insert_file("README", bytes("hi"), &Policy::Overwrite).unwrap();
    fs.insert_file("docs/NOTES", bytes("x"), &Policy::Overwrite).unwrap();
    fs
}

#[test]
fn allocator_rounds_up_to_whole_sectors() {
    let mut a = LbaAllocator::new(2048, 18);
    assert_eq!(a.allocate(0), 18);
    assert_eq!(a.next_lba(), 18);
    assert_eq!(a.allocate(1), 18);
    assert_eq!(a.next_lba(), 19);
    assert_eq!(a.allocate(2048), 19);
    assert_eq!(a.next_lba(), 20);
    assert_eq!(a.allocate(2049), 20);
    assert_eq!(a.next_lba(), 22);
    assert_eq!(a.sector_size(), 2048);
}

#[test]
fn consecutive_allocations_do_not_overlap() {
    let mut a = LbaAllocator::new(512, 3);
    let first = a.allocate(1500);
    let second = a.allocate(10);
    assert_eq!(first, 3);
    assert!(second >= first + (1500 + 511) / 512);
    assert_eq!(second, 6);
}

#[test]
fn allocator_reports_when_addresses_run_out() {
    let a = LbaAllocator::new(2048, u32::MAX - 1);
    assert!(a.fits(2048));
    assert!(!a.fits(2049));
}

#[test]
fn components_split_on_both_separators() {
    let p = IsoPath::new("a/b\\c");
    let mut c = p.components();
    assert_eq!(c.next(), Some(b"a".to_vec()));
    assert_eq!(c.next(), Some(b"b".to_vec()));
    assert_eq!(c.next(), Some(b"c".to_vec()));
    assert_eq!(c.next(), None);
}

#[test]
fn components_keep_empty_parts() {
    let p = IsoPath::new("a//b/");
    let mut c = p.components();
    assert_eq!(c.next(), Some(b"a".to_vec()));
    assert_eq!(c.next(), Some(b"".to_vec()));
    assert_eq!(c.next(), Some(b"b".to_vec()));
    assert_eq!(c.next(), None);
    assert_eq!(IsoPath::new("").components().next(), None);
}

#[test]
fn names_skip_empty_components() {
    assert_eq!(names_of(b"/a//b/"), vec![b"a".to_vec(), b"b".to_vec()]);
    assert!(names_of(b"//").is_empty());
}

#[test]
fn insert_file_scaffolds_missing_directories() {
    let fs = sample();
    let root = &fs.root.dir;
    assert_eq!(root.files().len(), 1);
    assert_eq!(content_bytes(file(root, "README")), b"hi".to_vec());
    let docs = subdir(root, "docs");
    assert_eq!(docs.files().len(), 1);
    assert_eq!(content_bytes(file(docs, "NOTES")), b"x".to_vec());
    assert!(docs.data_lba().is_none());
}

#[test]
fn insert_file_without_a_name_fails() {
    let mut fs = Filesystem::new();
    assert_eq!(fs.insert_file("", bytes("a"), &Policy::Overwrite), Err(Error::NotAFile));
    assert_eq!(fs.insert_file("/\\", bytes("a"), &Policy::Overwrite), Err(Error::NotAFile));
    assert!(fs.root.dir.files().is_empty());
}

#[test]
fn invalid_name_bytes_are_refused() {
    let mut fs = Filesystem::new();
    let parts = vec![b"ok".to_vec(), vec![0xff, 0xfe]];
    assert_eq!(fs.root.insert_at(parts, bytes("a"), &Policy::Overwrite), Err(Error::InvalidName));
    assert!(fs.root.dir.dirs().is_empty());
}

#[test]
fn long_names_are_cut_to_255_bytes() {
    let mut fs = Filesystem::new();
    let long = "N".repeat(300);
    fs.insert_file(&long, bytes("a"), &Policy::Overwrite).unwrap();
    let f = &fs.root.dir.files()[0];
    assert_eq!(f.name().len(), 255);
    assert_eq!(f.name(), "N".repeat(255).as_bytes());
}

#[test]
fn long_names_are_cut_at_a_character_boundary() {
    let mut fs = Filesystem::new();
    let long = format!("{}{}", "a".repeat(254), "é");
    fs.insert_file(&long, bytes("a"), &Policy::Overwrite).unwrap();
    assert_eq!(fs.root.dir.files()[0].name(), "a".repeat(254).as_bytes());
}

fn one_file(name: &str, content: &str) -> Filesystem {
    let mut fs = Filesystem::new();
    fs.insert_file(name, bytes(content), &Policy::Overwrite).unwrap();
    fs
}

#[test]
fn conflict_overwrite_takes_incoming() {
    let mut a = one_file("dir/f", "X");
    a.merge(one_file("dir/f", "Y"), &Policy::Overwrite).unwrap();
    let d = subdir(&a.root.dir, "dir");
    assert_eq!(d.files().len(), 1);
    assert_eq!(content_bytes(file(d, "f")), b"Y".to_vec());
}

#[test]
fn conflict_ignore_keeps_existing() {
    let mut a = one_file("dir/f", "X");
    a.merge(one_file("dir/f", "Y"), &Policy::Ignore).unwrap();
    let d = subdir(&a.root.dir, "dir");
    assert_eq!(d.files().len(), 1);
    assert_eq!(content_bytes(file(d, "f")), b"X".to_vec());
}

#[test]
fn conflict_handler_sees_existing_then_incoming() {
    let seen = std::cell::RefCell::new(Vec::new());
    let handler = |existing: FileEntry, incoming: FileEntry| {
        seen.borrow_mut().push((content_bytes(&existing), content_bytes(&incoming)));
        FileEntry::new("f", bytes("Z"))
    };
    let mut a = one_file("f", "X");
    a.merge(one_file("f", "Y"), &OnFileConflict::Handler(handler)).unwrap();
    assert_eq!(seen.borrow().clone(), vec![(b"X".to_vec(), b"Y".to_vec())]);
    assert_eq!(a.root.dir.files().len(), 1);
    let f = file(&a.root.dir, "f");
    assert_eq!(content_bytes(f), b"Z".to_vec());
}

#[test]
fn merge_composes_directories() {
    let mut a = one_file("d/one", "1");
    a.merge(one_file("d/two", "2"), &Policy::Overwrite).unwrap();
    a.merge(one_file("e/three", "3"), &Policy::Overwrite).unwrap();
    let d = subdir(&a.root.dir, "d");
    assert_eq!(d.files().len(), 2);
    assert_eq!(a.root.dir.dirs().len(), 2);
}

#[test]
fn data_length_counts_records_and_dot_entries() {
    let empty = DirectoryEntry::new("d");
    assert_eq!(empty.data_length(), Some(68));
    let fs = sample();
    // README: 33 + 6 + 1; docs: 33 + 4 + 1.
    assert_eq!(fs.root.dir.data_length(), Some(68 + 40 + 38));
    // NOTES: 33 + 5.
    assert_eq!(subdir(&fs.root.dir, "docs").data_length(), Some(68 + 38));
}

#[test]
fn inserting_one_file_into_an_empty_directory_adds_its_record() {
    let mut fs = Filesystem::new();
    let before = fs.root.dir.data_length().unwrap();
    fs.insert_file("ABC", bytes("q"), &Policy::Overwrite).unwrap();
    assert_eq!(fs.root.dir.data_length().unwrap(), before + 33 + 3);
}

#[test]
fn allocation_assigns_sectors_in_preorder() {
    let mut fs = sample();
    let mut a = LbaAllocator::new(2048, 18);
    fs.root.dir.allocate_lbas(&mut a).unwrap();
    let root = &fs.root.dir;
    let docs = subdir(root, "docs");
    assert_eq!(root.data_lba(), Some(18));
    assert_eq!(docs.data_lba(), Some(19));
    assert_eq!(file(docs, "NOTES").data_lba(), Some(20));
    assert_eq!(file(root, "README").data_lba(), Some(21));
    assert_eq!(a.next_lba(), 22);
}

#[test]
fn allocation_is_stable_across_runs() {
    let mut first = sample();
    let mut second = sample();
    let mut a = LbaAllocator::new(2048, 18);
    let mut b = LbaAllocator::new(2048, 18);
    first.root.dir.allocate_lbas(&mut a).unwrap();
    second.root.dir.allocate_lbas(&mut b).unwrap();
    let d1 = subdir(&first.root.dir, "docs");
    let d2 = subdir(&second.root.dir, "docs");
    assert_eq!(first.root.dir.data_lba(), second.root.dir.data_lba());
    assert_eq!(d1.data_lba(), d2.data_lba());
    assert_eq!(file(d1, "NOTES").data_lba(), file(d2, "NOTES").data_lba());
    assert_eq!(a.next_lba(), b.next_lba());
}

#[test]
fn oversized_file_is_refused_by_allocation() {
    let mut fs = Filesystem::new();
    fs.insert_file("big", FileEntryContent::from_host(3, 1 << 33), &Policy::Overwrite).unwrap();
    let mut a = LbaAllocator::new(2048, 18);
    assert_eq!(fs.root.dir.allocate_lbas(&mut a), Err(Error::ImageTooLarge));
}

#[test]
fn path_table_lists_directories_with_parent_numbers() {
    let mut fs = sample();
    fs.insert_file("docs/deep/F", bytes("f"), &Policy::Overwrite).unwrap();
    let mut a = LbaAllocator::new(2048, 18);
    fs.root.dir.allocate_lbas(&mut a).unwrap();
    let t = PathTable::from_filesystem(&fs).unwrap();
    let r = t.records();
    assert_eq!(r.len(), 3);
    assert_eq!(r[0].parent_directory_number, 1);
    assert!(r[0].directory_identifier.as_bytes().is_empty());
    assert_eq!(r[1].directory_identifier.as_bytes(), b"docs");
    assert_eq!(r[1].parent_directory_number, 1);
    assert_eq!(r[2].directory_identifier.as_bytes(), b"deep");
    assert_eq!(r[2].parent_directory_number, 2);
    for (k, rec) in r.iter().enumerate().skip(1) {
        assert!(rec.parent_directory_number as usize <= k);
    }
    // 8 + 1 + 1, 8 + 4, 8 + 4.
    assert_eq!(t.size(), 10 + 12 + 12);
}

#[test]
fn sector_writer_moves_on_instead_of_splitting() {
    let mut sw = SectorWriter::new(5, 2048);
    let mut out = Vec::new();
    sw.write_aligned(vec![1u8; 2000], &mut out).unwrap();
    sw.write_aligned(vec![2u8; 40], &mut out).unwrap();
    sw.write_aligned(vec![3u8; 40], &mut out).unwrap();
    assert_eq!(out[0].offset, 5 * 2048);
    assert_eq!(out[1].offset, 5 * 2048 + 2000);
    assert_eq!(out[2].offset, 6 * 2048);
}

#[test]
fn identifiers_hold_their_bytes() {
    assert_eq!(Identifier::standard_directory(b"docs").unwrap().as_bytes(), b"docs");
    assert!(Identifier::root_directory().as_bytes().is_empty());
    assert_eq!(Identifier::current_directory().as_bytes(), &[0u8]);
    assert_eq!(Identifier::parent_directory().as_bytes(), &[1u8]);
    assert_eq!(Identifier::system_identifier("LINUX").unwrap().kind(), IdentifierKind::A1Characters);
    assert!(Identifier::system_identifier(&"S".repeat(33)).is_none());
    assert_eq!(Identifier::volume_set_identifier(&"V".repeat(128)).unwrap().len(), 128);
    assert!(Identifier::volume_identifier(&"V".repeat(33)).is_none());
    assert_eq!(StandardIdentifier::Cd001.as_bytes(), *b"CD001");
    assert_eq!(StandardIdentifier::Tea01.as_bytes(), *b"TEA01");
}

#[test]
fn dates_convert_from_calendar_time() {
    let d = DigitsDate::from_time(now());
    assert_eq!(d.year.0, 2024);
    assert_eq!(d.hundreths.0, 25);
    let n = NumericalDate::from_time(now());
    assert_eq!(n.years_since_1900.0, 124);
    assert_eq!(n.second.0, 9);
}

fn record_with_name_len(len: usize) -> DirectoryRecord {
    DirectoryRecord {
        extended_attribute_length: 0,
        extent_location: 0x01020304,
        data_length: 10,
        recording_date: NumericalDate::from_time(now()),
        file_flags: FileFlags::empty(),
        file_unit_size: 0,
        interleave_gap_size: 0,
        volume_sequence_number: 1,
        file_identifier: Identifier::standard_file(&vec![b'A'; len]).unwrap(),
    }
}

#[test]
fn directory_record_encoding() {
    let b = encode_directory_record(&record_with_name_len(4)).unwrap();
    assert_eq!(b.len(), 38);
    assert_eq!(b[0], 38);
    assert_eq!(&b[2..10], &[4, 3, 2, 1, 1, 2, 3, 4]);
    assert_eq!(b[32], 4);
    assert_eq!(&b[33..37], b"AAAA");
    assert_eq!(b[37], 0);
    assert_eq!(encode_directory_record(&record_with_name_len(221)).unwrap().len(), 254);
    assert_eq!(encode_directory_record(&record_with_name_len(222)), Err(Error::Encoding));
}

#[test]
fn end_to_end_image() {
    let mut w = IsoWriter::new(IsoWriterOptions::compatibility());
    w.upsert_filesystem(sample(), &Policy::Overwrite).unwrap();
    let img = w.finalize(now()).unwrap();
    let out = render(&img);
    let s = 2048;
    // Primary descriptor, then the terminator.
    assert_eq!(out[16 * s], 1);
    assert_eq!(&out[16 * s + 1..16 * s + 6], b"CD001");
    assert_eq!(out[17 * s], 255);
    assert_eq!(&out[17 * s + 1..17 * s + 6], b"CD001");
    // Root at 18, docs at 19, NOTES at 20, README at 21.
    assert_eq!(&out[16 * s + 158..16 * s + 162], &18u32.to_le_bytes());
    assert_eq!(&out[20 * s..20 * s + 1], b"x");
    assert!(out[20 * s + 1..21 * s].iter().all(|&b| b == 0));
    assert_eq!(&out[21 * s..21 * s + 2], b"hi");
    assert!(out[21 * s + 2..22 * s].iter().all(|&b| b == 0));
    // The root's `.` record points at itself.
    assert_eq!(out[18 * s], 34);
    assert_eq!(&out[18 * s + 2..18 * s + 6], &18u32.to_le_bytes());
    // Type L path table at 22: root, then docs with parent 1.
    let l = 22 * s;
    assert_eq!(&out[l + 2..l + 6], &18u32.to_le_bytes());
    assert_eq!(out[l + 10], 4);
    assert_eq!(&out[l + 12..l + 16], &19u32.to_le_bytes());
    assert_eq!(&out[l + 16..l + 18], &1u16.to_le_bytes());
    assert_eq!(&out[l + 18..l + 22], b"docs");
    // Type M path table at 23.
    let m = 23 * s;
    assert_eq!(&out[m + 2..m + 6], &18u32.to_be_bytes());
    assert_eq!(img.volume_space_size, 24);
}

#[test]
fn joliet_adds_a_supplementary_descriptor() {
    let mut w = IsoWriter::new(IsoWriterOptions::default());
    w.upsert_filesystem(sample(), &Policy::Overwrite).unwrap();
    let out = render(&w.finalize(now()).unwrap());
    let s = 2048;
    assert_eq!(out[16 * s], 1);
    assert_eq!(out[17 * s], 2);
    assert_eq!(&out[17 * s + 88..17 * s + 91], b"%/E");
    assert_eq!(out[18 * s], 255);
    assert_eq!(&out[16 * s + 158..16 * s + 162], &19u32.to_le_bytes());
}

#[test]
fn finalize_refuses_bad_sector_sizes() {
    let w = IsoWriter::new(IsoWriterOptions { joliet: false, sector_size: 512 });
    assert!(matches!(w.finalize(now()), Err(Error::InvalidSectorSize)));
}

#[test]
fn finalize_refuses_names_too_long_for_a_record() {
    let mut w = IsoWriter::new(IsoWriterOptions::compatibility());
    let mut fs = Filesystem::new();
    fs.insert_file(&"L".repeat(230), bytes("a"), &Policy::Overwrite).unwrap();
    w.upsert_filesystem(fs, &Policy::Overwrite).unwrap();
    assert!(matches!(w.finalize(now()), Err(Error::Encoding)));
}

#[test]
fn finalize_refuses_oversized_files() {
    let mut w = IsoWriter::new(IsoWriterOptions::compatibility());
    let mut fs = Filesystem::new();
    fs.insert_file("big", FileEntryContent::from_host(1, 1 << 40), &Policy::Overwrite).unwrap();
    w.upsert_filesystem(fs, &Policy::Overwrite).unwrap();
    assert!(matches!(w.finalize(now()), Err(Error::ImageTooLarge)));
}

#[test]
fn capture_puts_files_below_the_destination() {
    let files = vec![
        ("a/one".to_string(), bytes("1")),
        ("two".to_string(), bytes("2")),
    ];
    let fs = Filesystem::capture("dest", files, &Policy::Overwrite).unwrap();
    let dest = subdir(&fs.root.dir, "dest");
    assert_eq!(content_bytes(file(subdir(dest, "a"), "one")), b"1".to_vec());
    assert_eq!(content_bytes(file(dest, "two")), b"2".to_vec());
    let bad = vec![("".to_string(), bytes("1"))];
    assert!(matches!(Filesystem::capture("", bad, &Policy::Overwrite), Err(Error::NotAFile)));
}

#[test]
fn records_describe_entries() {
    let mut fs = sample();
    let mut a = LbaAllocator::new(2048, 18);
    fs.root.allocate_lbas(&mut a).unwrap();
    let date = NumericalDate::from_time(now());
    let docs = subdir(&fs.root.dir, "docs");
    let rec = docs.directory_record(date).unwrap();
    assert_eq!(rec.extent_location, 19);
    assert_eq!(rec.data_length, 68 + 38);
    assert_eq!(rec.file_flags.bits(), 2);
    assert_eq!(rec.file_identifier.as_bytes(), b"docs");
    let notes = file(docs, "NOTES").directory_record(date).unwrap();
    assert_eq!(notes.extent_location, 20);
    assert_eq!(notes.data_length, 1);
    assert_eq!(notes.file_flags.bits(), 0);
    let root = fs.root.root_directory_record(date).unwrap();
    assert_eq!(root.extent_location, 18);
    assert_eq!(root.data_length, 68 + 40 + 38);
    let big = FileEntry::new("big", FileEntryContent::from_host(0, 1 << 32));
    assert!(matches!(big.directory_record(date), Err(Error::ImageTooLarge)));
}

#[test]
fn numeric_codes_of_enumerations() {
    assert_eq!(VolumeDescriptorType::Terminator.code(), 255);
    assert_eq!(VolumeDescriptorType::Supplementary.code(), 2);
    assert_eq!(RecordFormat::VariableLengthRecordsLsb.code(), 3);
    assert_eq!(RecordFormat::Other(9).code(), 9);
    assert_eq!(ElToritoBootIndicator::Bootable.code(), 0x88);
    assert_eq!(ElToritoPlatformId::Mac.code(), 2);
    assert_eq!(ElToritoEmulationType::HardDisk.code(), 4);
}

#[test]
fn scaffold_builds_a_chain() {
    let f = FileEntry::new("leaf", bytes("l"));
    let root = RootDirectory::scaffold(vec![b"a".to_vec(), b"b".to_vec()], vec![DirectoryEntry::new("sub")], vec![f]);
    let a = subdir(&root.dir, "a");
    let b = subdir(a, "b");
    assert!(a.files().is_empty());
    assert_eq!(content_bytes(file(b, "leaf")), b"l".to_vec());
    assert!(subdir(b, "sub").files().is_empty());
    let empty = RootDirectory::scaffold(vec![], vec![], vec![]);
    assert!(empty.dir.dirs().is_empty() && empty.dir.files().is_empty());
}

#[test]
fn root_from_directory_places_or_emplaces() {
    let mut fs = Filesystem::new();
    fs.insert_file("d/x", bytes("1"), &Policy::Overwrite).unwrap();
    let Filesystem { root } = fs;
    let RootDirectory { dir } = root;
    let d = dir.dirs.into_iter().next().unwrap();
    let placed = RootDirectory::from_directory(DirectoryEntry::new("d"), false);
    assert_eq!(placed.dir.dirs()[0].name(), b"d");
    let emplaced = RootDirectory::from_directory(d, true);
    assert_eq!(content_bytes(file(&emplaced.dir, "x")), b"1".to_vec());
    assert!(emplaced.dir.name().is_empty());
}

#[test]
fn dot_components_are_not_names() {
    let mut fs = Filesystem::new();
    assert_eq!(fs.insert_file("a/..", bytes("1"), &Policy::Overwrite), Err(Error::NotAFile));
    assert!(fs.root.dir.dirs().is_empty());
    fs.insert_file("./a/./b", bytes("2"), &Policy::Overwrite).unwrap();
    assert_eq!(content_bytes(file(subdir(&fs.root.dir, "a"), "b")), b"2".to_vec());
    assert_eq!(names_of(b"./x/."), vec![b"x".to_vec()]);
}

#[test]
fn capture_reports_the_first_failing_entry() {
    let files = vec![
        ("ok".to_string(), bytes("1")),
        ("d/..".to_string(), bytes("2")),
    ];
    assert!(matches!(Filesystem::capture("", files, &Policy::Overwrite), Err(Error::NotAFile)));
}

#[test]
fn allocating_again_keeps_every_address() {
    let mut fs = sample();
    let mut a = LbaAllocator::new(2048, 18);
    fs.root.allocate_lbas(&mut a).unwrap();
    let before: Vec<Option<u32>> = vec![
        fs.root.dir.data_lba(),
        subdir(&fs.root.dir, "docs").data_lba(),
        file(subdir(&fs.root.dir, "docs"), "NOTES").data_lba(),
        file(&fs.root.dir, "README").data_lba(),
    ];
    let mut b = LbaAllocator::new(2048, 18);
    fs.root.allocate_lbas(&mut b).unwrap();
    let after: Vec<Option<u32>> = vec![
        fs.root.dir.data_lba(),
        subdir(&fs.root.dir, "docs").data_lba(),
        file(subdir(&fs.root.dir, "docs"), "NOTES").data_lba(),
        file(&fs.root.dir, "README").data_lba(),
    ];
    assert_eq!(before, after);
    assert_eq!(a.next_lba(), b.next_lba());
}
