//! The records by which directories list their entries.

use vstd::prelude::*;
use crate::error::Error;
use crate::iso9660::{
    DirectoryRecord, FileFlags, Identifier, IdentifierKind, NumericalDate, RootDirectoryRecord,
};
use crate::tree::{DirectoryEntry, FileEntry, RootDirectory, valid_name};

verus! {

pub open spec fn address_or_zero(lba: Option<u32>) -> u32 {
    match lba {
        Some(l) => l,
        None => 0,
    }
}

/// The fields that every record of this library shares.
pub open spec fn plain_record(r: DirectoryRecord, date: NumericalDate) -> bool {
    &&& r.extended_attribute_length == 0
    &&& r.recording_date == date
    &&& r.file_unit_size == 0
    &&& r.interleave_gap_size == 0
    &&& r.volume_sequence_number == 1
}

impl FileEntry {
    /// This file's record in its directory, or `ImageTooLarge` where its
    /// length does not fit in 32 bits.
    pub fn directory_record(&self, date: NumericalDate) -> (r: Result<DirectoryRecord, Error>)
        requires
            valid_name(self.name@),
        ensures
            r is Ok <==> self.content.spec_extent() <= u32::MAX,
            r is Err ==> r == Err::<DirectoryRecord, Error>(Error::ImageTooLarge),
            r matches Ok(rec) ==> plain_record(rec, date) && rec.extent_location == address_or_zero(
                self.data_lba,
            ) && rec.data_length == self.content.spec_extent() && rec.file_flags.bits == 0
                && rec.file_identifier.kind == IdentifierKind::StandardFileIdentifier
                && rec.file_identifier.bytes@ == self.name@,
    {
        let ext = self.content.extent();
        if ext > u32::MAX as u64 {
            return Err(Error::ImageTooLarge);
        }
        let id = match Identifier::standard_file(self.name.as_slice()) {
            Some(id) => id,
            None => Identifier::root_directory(),
        };
        Ok(
            DirectoryRecord {
                extended_attribute_length: 0,
                extent_location: match self.data_lba {
                    Some(l) => l,
                    None => 0,
                },
                data_length: ext as u32,
                recording_date: date,
                file_flags: FileFlags::empty(),
                file_unit_size: 0,
                interleave_gap_size: 0,
                volume_sequence_number: 1,
                file_identifier: id,
            },
        )
    }
}

impl DirectoryEntry {
    /// This directory's record in its parent, its data length computed from
    /// its children, or `ImageTooLarge` where that length does not fit in 32
    /// bits.
    pub fn directory_record(&self, date: NumericalDate) -> (r: Result<DirectoryRecord, Error>)
        requires
            self.wf(),
            valid_name(self.name@),
        ensures
            r is Ok <==> self.spec_data_length() <= u32::MAX,
            r is Err ==> r == Err::<DirectoryRecord, Error>(Error::ImageTooLarge),
            r matches Ok(rec) ==> plain_record(rec, date) && rec.extent_location == address_or_zero(
                self.data_lba,
            ) && rec.data_length == self.spec_data_length() && rec.file_flags.bits == 2
                && rec.file_identifier.kind == IdentifierKind::StandardDirectoryIdentifier
                && rec.file_identifier.bytes@ == self.name@,
    {
        let len = match self.data_length() {
            Some(n) => n,
            None => {
                return Err(Error::ImageTooLarge);
            },
        };
        let id = match Identifier::standard_directory(self.name.as_slice()) {
            Some(id) => id,
            None => Identifier::root_directory(),
        };
        Ok(
            DirectoryRecord {
                extended_attribute_length: 0,
                extent_location: match self.data_lba {
                    Some(l) => l,
                    None => 0,
                },
                data_length: len,
                recording_date: date,
                file_flags: FileFlags::directory(),
                file_unit_size: 0,
                interleave_gap_size: 0,
                volume_sequence_number: 1,
                file_identifier: id,
            },
        )
    }
}

impl RootDirectory {
    /// The root's record for a volume descriptor, or `ImageTooLarge` where
    /// its data length does not fit in 32 bits.
    pub fn root_directory_record(&self, date: NumericalDate) -> (r: Result<RootDirectoryRecord, Error>)
        requires
            self.wf(),
        ensures
            r is Ok <==> self.dir.spec_data_length() <= u32::MAX,
            r is Err ==> r == Err::<RootDirectoryRecord, Error>(Error::ImageTooLarge),
            r matches Ok(rec) ==> rec.extent_location == address_or_zero(self.dir.data_lba)
                && rec.data_length == self.dir.spec_data_length() && rec.recording_date == date
                && rec.file_flags.bits == 2 && rec.file_unit_size == 0 && rec.interleave_gap_size
                == 0 && rec.volume_sequence_number == 1,
    {
        let len = match self.dir.data_length() {
            Some(n) => n,
            None => {
                return Err(Error::ImageTooLarge);
            },
        };
        Ok(
            RootDirectoryRecord {
                extent_location: match self.dir.data_lba {
                    Some(l) => l,
                    None => 0,
                },
                data_length: len,
                recording_date: date,
                file_flags: FileFlags::directory(),
                file_unit_size: 0,
                interleave_gap_size: 0,
                volume_sequence_number: 1,
            },
        )
    }
}

} // verus!
