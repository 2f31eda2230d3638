//! The records of ISO 9660 and its extensions (Joliet, El Torito), as plain
//! data.

use vstd::prelude::*;
use vstd::string::StringSliceAdditionalSpecFns;

verus! {

/// How the bytes of an [`Identifier`] are to be read.
#[derive(Debug, Clone, Copy, PartialEq, Eq, Structural, Hash, PartialOrd, Ord)]
pub enum IdentifierKind {
    /// Printable ASCII allowed by the standard.
    ACharacters,
    /// Upper-case letters, digits and `_`.
    DCharacters,
    A1Characters,
    D1Characters,
    /// Joliet (UCS-2) file identifier.
    JolietFileIdentifier,
    /// Joliet (UCS-2) directory identifier.
    JolietDirectoryIdentifier,
    StandardFileIdentifier,
    StandardDirectoryIdentifier,
    /// The `.` entry of a directory.
    CurrentDirectory,
    /// The `..` entry of a directory.
    ParentDirectory,
    /// The identifier of the root directory.
    RootDirectory,
}

/// Widths of the fixed identifier fields of a volume descriptor.
pub const SYSTEM_IDENTIFIER_WIDTH: usize = 32;
pub const VOLUME_IDENTIFIER_WIDTH: usize = 32;
pub const VOLUME_SET_IDENTIFIER_WIDTH: usize = 128;
pub const PUBLISHER_IDENTIFIER_WIDTH: usize = 128;
pub const DATA_PREPARER_IDENTIFIER_WIDTH: usize = 128;
pub const APPLICATION_IDENTIFIER_WIDTH: usize = 128;
pub const FILE_IDENTIFIER_WIDTH: usize = 37;
/// Longest identifier of a directory or file.
pub const MAX_IDENTIFIER_LENGTH: usize = 255;

/// An identifier as used in the records of the standard.
#[derive(Debug, Clone)]
pub struct Identifier {
    pub kind: IdentifierKind,
    pub bytes: Vec<u8>,
}

/// `Some` identifier of `kind` holding `b` if it is at most `width` bytes.
pub open spec fn bounded_identifier(
    r: Option<Identifier>,
    kind: IdentifierKind,
    b: Seq<u8>,
    width: usize,
) -> bool {
    &&& r is Some <==> b.len() <= width
    &&& r matches Some(id) ==> id.kind == kind && id.bytes@ == b
}

fn copy_bytes(b: &[u8]) -> (r: Vec<u8>)
    ensures
        r@ == b@,
{
    let mut r: Vec<u8> = Vec::new();
    let mut i: usize = 0;
    while i < b.len()
        invariant
            i <= b@.len(),
            r@ == b@.take(i as int),
        decreases b@.len() - i,
    {
        r.push(b[i]);
        i = i + 1;
        assert(r@ =~= b@.take(i as int));
    }
    assert(b@.take(i as int) =~= b@);
    r
}

impl Identifier {
    pub fn kind(&self) -> (r: IdentifierKind)
        ensures
            r == self.kind,
    {
        self.kind
    }

    pub fn as_bytes(&self) -> (r: &[u8])
        ensures
            r@ == self.bytes@,
    {
        self.bytes.as_slice()
    }

    /// Length in bytes.
    pub fn len(&self) -> (r: usize)
        ensures
            r == self.bytes@.len(),
    {
        self.bytes.len()
    }

    fn of_width(kind: IdentifierKind, b: &[u8], width: usize) -> (r: Option<Identifier>)
        ensures
            bounded_identifier(r, kind, b@, width),
    {
        if b.len() > width {
            None
        } else {
            Some(Identifier { kind, bytes: copy_bytes(b) })
        }
    }

    /// The identifier of the root directory: empty. A record that holds it
    /// writes the single byte 0 in its place.
    pub fn root_directory() -> (r: Self)
        ensures
            r.kind == IdentifierKind::RootDirectory,
            r.bytes@ == Seq::<u8>::empty(),
    {
        Identifier { kind: IdentifierKind::RootDirectory, bytes: Vec::new() }
    }

    /// The identifier of a directory's `.` entry: the single byte 0.
    pub fn current_directory() -> (r: Self)
        ensures
            r.kind == IdentifierKind::CurrentDirectory,
            r.bytes@ == seq![0u8],
    {
        let mut bytes: Vec<u8> = Vec::new();
        bytes.push(0);
        Identifier { kind: IdentifierKind::CurrentDirectory, bytes }
    }

    /// The identifier of a directory's `..` entry: the single byte 1.
    pub fn parent_directory() -> (r: Self)
        ensures
            r.kind == IdentifierKind::ParentDirectory,
            r.bytes@ == seq![1u8],
    {
        let mut bytes: Vec<u8> = Vec::new();
        bytes.push(1);
        Identifier { kind: IdentifierKind::ParentDirectory, bytes }
    }

    /// A directory identifier holding `name`, if it has at most 255 bytes.
    pub fn standard_directory(name: &[u8]) -> (r: Option<Self>)
        ensures
            bounded_identifier(
                r,
                IdentifierKind::StandardDirectoryIdentifier,
                name@,
                MAX_IDENTIFIER_LENGTH,
            ),
    {
        Identifier::of_width(IdentifierKind::StandardDirectoryIdentifier, name, MAX_IDENTIFIER_LENGTH)
    }

    /// A file identifier holding `name`, if it has at most 255 bytes.
    pub fn standard_file(name: &[u8]) -> (r: Option<Self>)
        ensures
            bounded_identifier(
                r,
                IdentifierKind::StandardFileIdentifier,
                name@,
                MAX_IDENTIFIER_LENGTH,
            ),
    {
        Identifier::of_width(IdentifierKind::StandardFileIdentifier, name, MAX_IDENTIFIER_LENGTH)
    }

    /// The system identifier field, if `name` fits its 32 bytes.
    pub fn system_identifier(name: &str) -> (r: Option<Self>)
        ensures
            bounded_identifier(
                r,
                IdentifierKind::A1Characters,
                name.spec_bytes(),
                SYSTEM_IDENTIFIER_WIDTH,
            ),
    {
        Identifier::of_width(IdentifierKind::A1Characters, name.as_bytes(), SYSTEM_IDENTIFIER_WIDTH)
    }

    /// The volume identifier field, if `name` fits its 32 bytes.
    pub fn volume_identifier(name: &str) -> (r: Option<Self>)
        ensures
            bounded_identifier(
                r,
                IdentifierKind::D1Characters,
                name.spec_bytes(),
                VOLUME_IDENTIFIER_WIDTH,
            ),
    {
        Identifier::of_width(IdentifierKind::D1Characters, name.as_bytes(), VOLUME_IDENTIFIER_WIDTH)
    }

    /// The volume set identifier field, if `name` fits its 128 bytes.
    pub fn volume_set_identifier(name: &str) -> (r: Option<Self>)
        ensures
            bounded_identifier(
                r,
                IdentifierKind::D1Characters,
                name.spec_bytes(),
                VOLUME_SET_IDENTIFIER_WIDTH,
            ),
    {
        Identifier::of_width(
            IdentifierKind::D1Characters,
            name.as_bytes(),
            VOLUME_SET_IDENTIFIER_WIDTH,
        )
    }

    /// The publisher identifier field, if `name` fits its 128 bytes.
    pub fn publisher_identifier(name: &str) -> (r: Option<Self>)
        ensures
            bounded_identifier(
                r,
                IdentifierKind::A1Characters,
                name.spec_bytes(),
                PUBLISHER_IDENTIFIER_WIDTH,
            ),
    {
        Identifier::of_width(
            IdentifierKind::A1Characters,
            name.as_bytes(),
            PUBLISHER_IDENTIFIER_WIDTH,
        )
    }

    /// The data preparer identifier field, if `name` fits its 128 bytes.
    pub fn data_preparer_identifier(name: &str) -> (r: Option<Self>)
        ensures
            bounded_identifier(
                r,
                IdentifierKind::A1Characters,
                name.spec_bytes(),
                DATA_PREPARER_IDENTIFIER_WIDTH,
            ),
    {
        Identifier::of_width(
            IdentifierKind::A1Characters,
            name.as_bytes(),
            DATA_PREPARER_IDENTIFIER_WIDTH,
        )
    }

    /// The application identifier field, if `name` fits its 128 bytes.
    pub fn application_identifier(name: &str) -> (r: Option<Self>)
        ensures
            bounded_identifier(
                r,
                IdentifierKind::A1Characters,
                name.spec_bytes(),
                APPLICATION_IDENTIFIER_WIDTH,
            ),
    {
        Identifier::of_width(
            IdentifierKind::A1Characters,
            name.as_bytes(),
            APPLICATION_IDENTIFIER_WIDTH,
        )
    }

    /// A file identifier field of a volume descriptor (copyright, abstract,
    /// bibliographic), if `name` fits its 37 bytes.
    pub fn file_field_identifier(name: &str) -> (r: Option<Self>)
        ensures
            bounded_identifier(
                r,
                IdentifierKind::D1Characters,
                name.spec_bytes(),
                FILE_IDENTIFIER_WIDTH,
            ),
    {
        Identifier::of_width(IdentifierKind::D1Characters, name.as_bytes(), FILE_IDENTIFIER_WIDTH)
    }
}

#[derive(Debug, Clone, Copy, PartialEq, Eq, Structural)]
pub enum JolietLevel {
    /// UCS-2 Level 1
    Level1,
    /// UCS-2 Level 2
    Level2,
    /// UCS-2 Level 3
    Level3,
}

/// Escape sequences conforming to ISO/IEC 2022, escape characters
/// included. All zero means that the a1-characters are the a-characters.
#[derive(Debug, Clone)]
pub struct EscapeSequences {
    pub bytes: [u8; 32],
}

impl EscapeSequences {
    /// The escape sequence that announces the given Joliet level
    /// (`%/@`, `%/C` or `%/E`), zero-padded to 32 bytes.
    pub fn joliet(level: JolietLevel) -> (r: Self)
        ensures
            r.bytes@[0] == 0x25u8,
            r.bytes@[1] == 0x2fu8,
            r.bytes@[2] == match level {
                JolietLevel::Level1 => 0x40u8,
                JolietLevel::Level2 => 0x43u8,
                JolietLevel::Level3 => 0x45u8,
            },
            forall|i: int| 3 <= i < 32 ==> r.bytes@[i] == 0u8,
    {
        let mut bytes = [0u8; 32];
        bytes.set(0, 0x25);
        bytes.set(1, 0x2f);
        let last: u8 = match level {
            JolietLevel::Level1 => 0x40,
            JolietLevel::Level2 => 0x43,
            JolietLevel::Level3 => 0x45,
        };
        bytes.set(2, last);
        EscapeSequences { bytes }
    }
}

/// Escape sequences conforming to ISO/IEC 2022, escape characters excluded.
#[derive(Debug, Clone)]
pub struct VariadicEscapeSequences {
    pub bytes: Vec<u8>,
}

/// The flags byte of a directory record.
#[derive(Debug, Clone, Copy, PartialEq, Eq, Structural)]
pub struct FileFlags {
    pub bits: u8,
}

impl FileFlags {
    pub fn empty() -> (r: Self)
        ensures
            r.bits == 0,
    {
        FileFlags { bits: 0 }
    }

    /// The entry is a directory.
    pub fn directory() -> (r: Self)
        ensures
            r.bits == 2,
    {
        FileFlags { bits: 2 }
    }

    pub fn bits(&self) -> (r: u8)
        ensures
            r == self.bits,
    {
        self.bits
    }
}

/// The permissions field of an extended attribute record.
#[derive(Debug, Clone, Copy, PartialEq, Eq, Structural)]
pub struct Permissions {
    pub bits: u16,
}

/// The volume flags of a supplementary volume descriptor.
#[derive(Debug, Clone, Copy, PartialEq, Eq, Structural)]
pub struct VolumeFlags {
    pub bits: u8,
}

#[derive(Debug, Clone, Copy, PartialEq, Eq, Structural)]
pub struct OwnerIdentification(pub u16);

#[derive(Debug, Clone, Copy, PartialEq, Eq, Structural)]
pub struct GroupIdentification(pub u16);

#[derive(Debug, Clone, Copy, PartialEq, Eq, Structural)]
pub enum RecordFormat {
    StructureNotSpecified,
    FixedLengthRecords,
    VariableLengthRecordsMsb,
    VariableLengthRecordsLsb,
    Other(u8),
}

impl RecordFormat {
    pub fn code(&self) -> (r: u8)
        ensures
            r == match self {
                RecordFormat::StructureNotSpecified => 0u8,
                RecordFormat::FixedLengthRecords => 1u8,
                RecordFormat::VariableLengthRecordsMsb => 2u8,
                RecordFormat::VariableLengthRecordsLsb => 3u8,
                RecordFormat::Other(v) => *v,
            },
    {
        match self {
            RecordFormat::StructureNotSpecified => 0,
            RecordFormat::FixedLengthRecords => 1,
            RecordFormat::VariableLengthRecordsMsb => 2,
            RecordFormat::VariableLengthRecordsLsb => 3,
            RecordFormat::Other(v) => *v,
        }
    }
}

#[derive(Debug, Clone, Copy, PartialEq, Eq, Structural)]
pub enum RecordAttributes {
    PreceededByLfcFollowedByCrc,
    /// The first byte of a record is read as ISO/IEC 1539-1 vertical spacing.
    FirstByteInterpretedByIso15391,
    ContainsNecessaryControlInformation,
    Other(u8),
}

impl RecordAttributes {
    pub fn code(&self) -> (r: u8)
        ensures
            r == match self {
                RecordAttributes::PreceededByLfcFollowedByCrc => 0u8,
                RecordAttributes::FirstByteInterpretedByIso15391 => 1u8,
                RecordAttributes::ContainsNecessaryControlInformation => 2u8,
                RecordAttributes::Other(v) => *v,
            },
    {
        match self {
            RecordAttributes::PreceededByLfcFollowedByCrc => 0,
            RecordAttributes::FirstByteInterpretedByIso15391 => 1,
            RecordAttributes::ContainsNecessaryControlInformation => 2,
            RecordAttributes::Other(v) => *v,
        }
    }
}

#[derive(Debug, Clone, Copy, PartialEq, Eq, Structural)]
pub enum ExtendedAttributeRecordVersion {
    Standard,
    Other(u8),
}

impl ExtendedAttributeRecordVersion {
    pub fn code(&self) -> (r: u8)
        ensures
            r == match self {
                ExtendedAttributeRecordVersion::Standard => 1u8,
                ExtendedAttributeRecordVersion::Other(v) => *v,
            },
    {
        match self {
            ExtendedAttributeRecordVersion::Standard => 1,
            ExtendedAttributeRecordVersion::Other(v) => *v,
        }
    }
}

/// The five-byte identifier that opens every volume descriptor.
#[derive(Debug, Clone, Copy)]
pub enum StandardIdentifier {
    /// ISO 9660: "CD001".
    Cd001,
    /// Start of the extended descriptor section: "BEA01".
    Bea01,
    /// A UDF filesystem: "NSR02".
    Nsr02,
    /// A UDF filesystem: "NSR03".
    Nsr03,
    /// Boot loader location: "BOOT2".
    Boot2,
    /// End of the extended descriptor section: "TEA01".
    Tea01,
    Other([u8; 5]),
}

pub open spec fn ascii5(a: char, b: char, c: char, d: char, e: char) -> Seq<u8> {
    seq![a as u8, b as u8, c as u8, d as u8, e as u8]
}

impl StandardIdentifier {
    pub open spec fn spec_bytes(&self) -> Seq<u8> {
        match self {
            StandardIdentifier::Cd001 => ascii5('C', 'D', '0', '0', '1'),
            StandardIdentifier::Bea01 => ascii5('B', 'E', 'A', '0', '1'),
            StandardIdentifier::Nsr02 => ascii5('N', 'S', 'R', '0', '2'),
            StandardIdentifier::Nsr03 => ascii5('N', 'S', 'R', '0', '3'),
            StandardIdentifier::Boot2 => ascii5('B', 'O', 'O', 'T', '2'),
            StandardIdentifier::Tea01 => ascii5('T', 'E', 'A', '0', '1'),
            StandardIdentifier::Other(v) => v@,
        }
    }

    pub fn as_bytes(&self) -> (r: [u8; 5])
        ensures
            r@ == self.spec_bytes(),
    {
        let r: [u8; 5] = match self {
            StandardIdentifier::Cd001 => [0x43, 0x44, 0x30, 0x30, 0x31],
            StandardIdentifier::Bea01 => [0x42, 0x45, 0x41, 0x30, 0x31],
            StandardIdentifier::Nsr02 => [0x4e, 0x53, 0x52, 0x30, 0x32],
            StandardIdentifier::Nsr03 => [0x4e, 0x53, 0x52, 0x30, 0x33],
            StandardIdentifier::Boot2 => [0x42, 0x4f, 0x4f, 0x54, 0x32],
            StandardIdentifier::Tea01 => [0x54, 0x45, 0x41, 0x30, 0x31],
            StandardIdentifier::Other(v) => *v,
        };
        assert(r@ =~= self.spec_bytes());
        r
    }
}

#[derive(Debug, Clone, Copy, PartialEq, Eq, Structural)]
pub enum VolumeDescriptorType {
    BootRecord,
    Primary,
    Supplementary,
    Partition,
    Other(u8),
    Terminator,
}

impl VolumeDescriptorType {
    pub open spec fn spec_code(&self) -> u8 {
        match self {
            VolumeDescriptorType::BootRecord => 0,
            VolumeDescriptorType::Primary => 1,
            VolumeDescriptorType::Supplementary => 2,
            VolumeDescriptorType::Partition => 3,
            VolumeDescriptorType::Other(v) => *v,
            VolumeDescriptorType::Terminator => 255,
        }
    }

    /// The type byte that opens the descriptor.
    pub fn code(&self) -> (r: u8)
        ensures
            r == self.spec_code(),
    {
        match self {
            VolumeDescriptorType::BootRecord => 0,
            VolumeDescriptorType::Primary => 1,
            VolumeDescriptorType::Supplementary => 2,
            VolumeDescriptorType::Partition => 3,
            VolumeDescriptorType::Other(v) => *v,
            VolumeDescriptorType::Terminator => 255,
        }
    }
}

#[derive(Debug, Clone, Copy, PartialEq, Eq, Structural)]
pub enum VolumeDescriptorVersion {
    Standard,
    Other(u8),
}

impl VolumeDescriptorVersion {
    pub fn code(&self) -> (r: u8)
        ensures
            self == VolumeDescriptorVersion::Standard ==> r == 1,
            self matches VolumeDescriptorVersion::Other(v) ==> r == v,
    {
        match self {
            VolumeDescriptorVersion::Standard => 1,
            VolumeDescriptorVersion::Other(v) => *v,
        }
    }
}

#[derive(Debug, Clone, Copy, PartialEq, Eq, Structural)]
pub enum FileStructureVersion {
    Standard,
    Other(u8),
}

impl FileStructureVersion {
    pub fn code(&self) -> (r: u8)
        ensures
            self == FileStructureVersion::Standard ==> r == 1,
            self matches FileStructureVersion::Other(v) ==> r == v,
    {
        match self {
            FileStructureVersion::Standard => 1,
            FileStructureVersion::Other(v) => *v,
        }
    }
}

#[derive(Debug, Clone, Copy, PartialEq, Eq, Structural)]
pub struct DigitsYear(pub u16);

#[derive(Debug, Clone, Copy, PartialEq, Eq, Structural)]
pub struct DigitsMonth(pub u8);

#[derive(Debug, Clone, Copy, PartialEq, Eq, Structural)]
pub struct DigitsDay(pub u8);

#[derive(Debug, Clone, Copy, PartialEq, Eq, Structural)]
pub struct DigitsHour(pub u8);

#[derive(Debug, Clone, Copy, PartialEq, Eq, Structural)]
pub struct DigitsMinute(pub u8);

#[derive(Debug, Clone, Copy, PartialEq, Eq, Structural)]
pub struct DigitsHundreths(pub u8);

#[derive(Debug, Clone, Copy, PartialEq, Eq, Structural)]
pub struct DigitsSecond(pub u8);

#[derive(Debug, Clone, Copy, PartialEq, Eq, Structural)]
pub struct NumericalYear(pub u8);

#[derive(Debug, Clone, Copy, PartialEq, Eq, Structural)]
pub struct NumericalMonth(pub u8);

#[derive(Debug, Clone, Copy, PartialEq, Eq, Structural)]
pub struct NumericalDay(pub u8);

#[derive(Debug, Clone, Copy, PartialEq, Eq, Structural)]
pub struct NumericalHour(pub u8);

#[derive(Debug, Clone, Copy, PartialEq, Eq, Structural)]
pub struct NumericalMinute(pub u8);

#[derive(Debug, Clone, Copy, PartialEq, Eq, Structural)]
pub struct NumericalSecond(pub u8);

/// Offset from Greenwich Mean Time in 15-minute steps.
#[derive(Debug, Clone, Copy, PartialEq, Eq, Structural)]
pub struct NumericalGmtOffset(pub i8);

/// A point in time as found in volume descriptors: each part in decimal
/// digits.
#[derive(Debug, Clone, Copy, PartialEq, Eq, Structural)]
pub struct DigitsDate {
    pub year: DigitsYear,
    pub month: DigitsMonth,
    pub day: DigitsDay,
    pub hour: DigitsHour,
    pub minute: DigitsMinute,
    pub second: DigitsSecond,
    pub hundreths: DigitsHundreths,
    pub gmt_offset: NumericalGmtOffset,
}

/// A point in time as found in directory records: each part as a binary
/// number, the year counted from 1900.
#[derive(Debug, Clone, Copy, PartialEq, Eq, Structural)]
pub struct NumericalDate {
    pub years_since_1900: NumericalYear,
    pub month: NumericalMonth,
    pub day: NumericalDay,
    pub hour: NumericalHour,
    pub minute: NumericalMinute,
    pub second: NumericalSecond,
    pub gmt_offset: NumericalGmtOffset,
}

/// A calendar time in Coordinated Universal Time, as plain numbers.
#[derive(Debug, Clone, Copy, PartialEq, Eq, Structural)]
pub struct UtcTime {
    pub year: i32,
    /// 1 to 12.
    pub month: u32,
    /// 1 to 31.
    pub day: u32,
    /// 0 to 23.
    pub hour: u32,
    /// 0 to 59.
    pub minute: u32,
    /// 0 to 60, a leap second included.
    pub second: u32,
    /// Milliseconds past the second, 0 to 1999 (a leap second included).
    pub millisecond: u32,
}

impl UtcTime {
    pub open spec fn wf(&self) -> bool {
        &&& 1 <= self.month <= 12
        &&& 1 <= self.day <= 31
        &&& self.hour <= 23
        &&& self.minute <= 59
        &&& self.second <= 60
        &&& self.millisecond <= 1999
    }
}

impl DigitsDate {
    /// `t` in digits; the year is cut to 16 bits, and the hundredths are the
    /// milliseconds divided by ten.
    pub fn from_time(t: UtcTime) -> (r: Self)
        requires
            t.wf(),
        ensures
            r.year.0 == t.year as u16,
            r.month.0 == t.month,
            r.day.0 == t.day,
            r.hour.0 == t.hour,
            r.minute.0 == t.minute,
            r.second.0 == t.second,
            r.hundreths.0 == t.millisecond / 10,
            r.gmt_offset.0 == 0,
    {
        DigitsDate {
            year: DigitsYear(t.year as u16),
            month: DigitsMonth(t.month as u8),
            day: DigitsDay(t.day as u8),
            hour: DigitsHour(t.hour as u8),
            minute: DigitsMinute(t.minute as u8),
            second: DigitsSecond(t.second as u8),
            hundreths: DigitsHundreths((t.millisecond / 10) as u8),
            gmt_offset: NumericalGmtOffset(0),
        }
    }
}

/// `t` as a directory record's date.
pub open spec fn numerical_of(t: UtcTime) -> NumericalDate {
    NumericalDate {
        years_since_1900: NumericalYear((if t.year < 1900 { 0 } else { t.year - 1900 }) as u8),
        month: NumericalMonth(t.month as u8),
        day: NumericalDay(t.day as u8),
        hour: NumericalHour(t.hour as u8),
        minute: NumericalMinute(t.minute as u8),
        second: NumericalSecond(t.second as u8),
        gmt_offset: NumericalGmtOffset(0),
    }
}

impl NumericalDate {
    /// `t` as binary numbers; years before 1900 count as 1900 and the count
    /// of years is cut to 8 bits.
    pub fn from_time(t: UtcTime) -> (r: Self)
        requires
            t.wf(),
        ensures
            r == numerical_of(t),
            r.years_since_1900.0 == (if t.year < 1900 { 0 } else { t.year - 1900 }) as u8,
            r.month.0 == t.month,
            r.day.0 == t.day,
            r.hour.0 == t.hour,
            r.minute.0 == t.minute,
            r.second.0 == t.second,
            r.gmt_offset.0 == 0,
    {
        let years: i32 = if t.year < 1900 { 0 } else { t.year - 1900 };
        NumericalDate {
            years_since_1900: NumericalYear(years as u8),
            month: NumericalMonth(t.month as u8),
            day: NumericalDay(t.day as u8),
            hour: NumericalHour(t.hour as u8),
            minute: NumericalMinute(t.minute as u8),
            second: NumericalSecond(t.second as u8),
            gmt_offset: NumericalGmtOffset(0),
        }
    }
}

/// The record of a directory or file within its parent's extent.
#[derive(Debug, Clone)]
pub struct DirectoryRecord {
    pub extended_attribute_length: u8,
    pub extent_location: u32,
    pub data_length: u32,
    pub recording_date: NumericalDate,
    pub file_flags: FileFlags,
    pub file_unit_size: u8,
    pub interleave_gap_size: u8,
    pub volume_sequence_number: u16,
    pub file_identifier: Identifier,
}

/// The root's record inside a volume descriptor: a directory record whose
/// identifier is the single byte 0.
#[derive(Debug, Clone)]
pub struct RootDirectoryRecord {
    pub extent_location: u32,
    pub data_length: u32,
    pub recording_date: NumericalDate,
    pub file_flags: FileFlags,
    pub file_unit_size: u8,
    pub interleave_gap_size: u8,
    pub volume_sequence_number: u16,
}

/// One directory in a path table.
#[derive(Debug, Clone)]
pub struct PathTableRecord {
    pub extended_attribute_record_length: u8,
    pub extent_location: u32,
    /// 1-based index, in the table, of the parent directory's record.
    pub parent_directory_number: u16,
    pub directory_identifier: Identifier,
}

/// Bytes that a path table record stores for an identifier of `len` bytes:
/// the empty identifier of the root is stored as the single byte 0.
pub open spec fn stored_length(len: nat) -> nat {
    if len == 0 { 1 } else { len }
}

/// Encoded length of a path table record whose identifier has `len` bytes:
/// an 8-byte header, the stored identifier, and a pad byte if its length
/// is odd.
pub open spec fn path_record_extent(len: nat) -> nat {
    8 + stored_length(len) + if stored_length(len) % 2 == 1 { 1nat } else { 0nat }
}

impl PathTableRecord {
    pub open spec fn spec_extent(&self) -> nat {
        path_record_extent(self.directory_identifier.bytes@.len())
    }

    pub fn extent(&self) -> (r: usize)
        requires
            self.directory_identifier.bytes@.len() <= MAX_IDENTIFIER_LENGTH,
        ensures
            r == self.spec_extent(),
    {
        let len = if self.directory_identifier.bytes.len() == 0 {
            1
        } else {
            self.directory_identifier.bytes.len()
        };
        if len % 2 == 1 {
            9 + len
        } else {
            8 + len
        }
    }
}

#[derive(Debug, Clone)]
pub struct PrimaryVolumeDescriptor {
    pub standard_identifier: StandardIdentifier,
    pub version: VolumeDescriptorVersion,
    pub system_identifier: Identifier,
    pub volume_identifier: Identifier,
    pub volume_space_size: u32,
    pub volume_set_size: u16,
    pub volume_sequence_number: u16,
    pub logical_block_size: u16,
    pub path_table_size: u32,
    pub type_l_path_table_location: u32,
    pub optional_type_l_path_table_location: u32,
    pub type_m_path_table_location: u32,
    pub optional_type_m_path_table_location: u32,
    pub root_directory_record: RootDirectoryRecord,
    pub volume_set_identifier: Identifier,
    pub publisher_identifier: Identifier,
    pub data_preparer_identifier: Identifier,
    pub application_identifier: Identifier,
    pub copyright_file_identifier: Identifier,
    pub abstract_file_identifier: Identifier,
    pub bibliographic_file_identifier: Identifier,
    pub creation_date: DigitsDate,
    pub modification_date: DigitsDate,
    pub expiration_date: DigitsDate,
    pub effective_date: DigitsDate,
    pub file_structure_version: FileStructureVersion,
}

#[derive(Debug, Clone)]
pub struct SupplementaryVolumeDescriptor {
    pub standard_identifier: StandardIdentifier,
    pub version: VolumeDescriptorVersion,
    pub volume_flags: VolumeFlags,
    pub system_identifier: Identifier,
    pub volume_identifier: Identifier,
    pub volume_space_size: u32,
    pub escape_sequences: EscapeSequences,
    pub volume_set_size: u16,
    pub volume_sequence_number: u16,
    pub logical_block_size: u16,
    pub path_table_size: u32,
    pub type_l_path_table_location: u32,
    pub optional_type_l_path_table_location: u32,
    pub type_m_path_table_location: u32,
    pub optional_type_m_path_table_location: u32,
    pub root_directory_record: RootDirectoryRecord,
    pub volume_set_identifier: Identifier,
    pub publisher_identifier: Identifier,
    pub data_preparer_identifier: Identifier,
    pub application_identifier: Identifier,
    pub copyright_file_identifier: Identifier,
    pub abstract_file_identifier: Identifier,
    pub bibliographic_file_identifier: Identifier,
    pub creation_date: DigitsDate,
    pub modification_date: DigitsDate,
    pub expiration_date: DigitsDate,
    pub effective_date: DigitsDate,
    pub file_structure_version: FileStructureVersion,
}

#[derive(Debug, Clone)]
pub struct VolumePartitionDescriptor {
    pub standard_identifier: StandardIdentifier,
    pub version: VolumeDescriptorVersion,
    pub system_identifier: Identifier,
    pub volume_partition_identifier: Identifier,
    pub volume_partition_location: u32,
    pub volume_partition_size: u32,
}

/// Ends the set of volume descriptors.
#[derive(Debug, Clone, Copy, PartialEq, Eq, Structural)]
pub struct VolumeDescriptorSetTerminator;

#[derive(Debug, Clone)]
pub struct ExtendedAttributeRecord {
    pub owner_identification: OwnerIdentification,
    pub group_identification: GroupIdentification,
    pub permissions: Permissions,
    pub file_creation_date: DigitsDate,
    pub file_modification_date: DigitsDate,
    pub file_expiration_date: DigitsDate,
    pub file_effective_date: DigitsDate,
    pub record_format: RecordFormat,
    pub record_attributes: RecordAttributes,
    pub extended_attribute_record_version: ExtendedAttributeRecordVersion,
    pub application_use: Vec<u8>,
    pub escape_sequences: VariadicEscapeSequences,
}

#[derive(Debug, Clone, Copy, PartialEq, Eq, Structural)]
pub enum ElToritoHeaderId {
    Standard,
    Other(u8),
}

impl ElToritoHeaderId {
    pub fn code(&self) -> (r: u8)
        ensures
            r == match self {
                ElToritoHeaderId::Standard => 1u8,
                ElToritoHeaderId::Other(v) => *v,
            },
    {
        match self {
            ElToritoHeaderId::Standard => 1,
            ElToritoHeaderId::Other(v) => *v,
        }
    }
}

#[derive(Debug, Clone, Copy, PartialEq, Eq, Structural)]
pub enum ElToritoPlatformId {
    X86,
    PowerPc,
    Mac,
    Other(u8),
}

impl ElToritoPlatformId {
    pub fn code(&self) -> (r: u8)
        ensures
            r == match self {
                ElToritoPlatformId::X86 => 0u8,
                ElToritoPlatformId::PowerPc => 1u8,
                ElToritoPlatformId::Mac => 2u8,
                ElToritoPlatformId::Other(v) => *v,
            },
    {
        match self {
            ElToritoPlatformId::X86 => 0,
            ElToritoPlatformId::PowerPc => 1,
            ElToritoPlatformId::Mac => 2,
            ElToritoPlatformId::Other(v) => *v,
        }
    }
}

#[derive(Debug, Clone, Copy, PartialEq, Eq, Structural)]
pub enum ElToritoBootIndicator {
    Bootable,
    NonBootable,
    Other(u8),
}

impl ElToritoBootIndicator {
    pub fn code(&self) -> (r: u8)
        ensures
            r == match self {
                ElToritoBootIndicator::Bootable => 0x88u8,
                ElToritoBootIndicator::NonBootable => 0u8,
                ElToritoBootIndicator::Other(v) => *v,
            },
    {
        match self {
            ElToritoBootIndicator::Bootable => 0x88,
            ElToritoBootIndicator::NonBootable => 0,
            ElToritoBootIndicator::Other(v) => *v,
        }
    }
}

#[derive(Debug, Clone, Copy)]
pub struct ElToritoManufacturerId(pub [u8; 16]);

/// Whether an extension record follows a section entry.
#[derive(Debug, Clone, Copy, PartialEq, Eq, Structural)]
pub struct ElToritoExtensionRecordFollowsIndicator {
    pub bits: u8,
}

#[derive(Debug, Clone, Copy, PartialEq, Eq, Structural)]
pub struct ElToritoBootMediaType(pub u8);

#[derive(Debug, Clone, Copy, PartialEq, Eq, Structural)]
pub enum ElToritoEmulationType {
    NoEmulation,
    Floppy12M,
    Floppy144M,
    Floppy288M,
    HardDisk,
}

impl ElToritoEmulationType {
    pub fn code(&self) -> (r: u8)
        ensures
            r == match self {
                ElToritoEmulationType::NoEmulation => 0u8,
                ElToritoEmulationType::Floppy12M => 1u8,
                ElToritoEmulationType::Floppy144M => 2u8,
                ElToritoEmulationType::Floppy288M => 3u8,
                ElToritoEmulationType::HardDisk => 4u8,
            },
    {
        match self {
            ElToritoEmulationType::NoEmulation => 0,
            ElToritoEmulationType::Floppy12M => 1,
            ElToritoEmulationType::Floppy144M => 2,
            ElToritoEmulationType::Floppy288M => 3,
            ElToritoEmulationType::HardDisk => 4,
        }
    }
}

#[derive(Debug, Clone, Copy, PartialEq, Eq, Structural)]
pub struct ElToritoBootMediaTypeExt {
    pub emulation_type: ElToritoEmulationType,
    pub continuation_entry_follows: bool,
    pub contains_atapi_driver: bool,
    pub contains_scsi_drivers: bool,
}

#[derive(Debug, Clone, Copy, PartialEq, Eq, Structural)]
pub enum ElToritoHeaderIndicator {
    MoreHeadersFollow,
    FinalHeader,
}

#[derive(Debug, Clone, Copy)]
pub struct ElToritoSectionId(pub [u8; 16]);

#[derive(Debug, Clone, Copy, PartialEq, Eq, Structural)]
pub enum ElToritoSelectionCriteriaType {
    NoSelectionCriteria,
    LanguageAndVersionInformation,
    Other(u8),
}

impl ElToritoSelectionCriteriaType {
    pub fn code(&self) -> (r: u8)
        ensures
            r == match self {
                ElToritoSelectionCriteriaType::NoSelectionCriteria => 0u8,
                ElToritoSelectionCriteriaType::LanguageAndVersionInformation => 1u8,
                ElToritoSelectionCriteriaType::Other(v) => *v,
            },
    {
        match self {
            ElToritoSelectionCriteriaType::NoSelectionCriteria => 0,
            ElToritoSelectionCriteriaType::LanguageAndVersionInformation => 1,
            ElToritoSelectionCriteriaType::Other(v) => *v,
        }
    }
}

#[derive(Debug, Clone, Copy, PartialEq, Eq, Structural)]
pub struct ElToritoInitialSectionEntry {
    pub boot_indicator: ElToritoBootIndicator,
    pub boot_media_type: ElToritoBootMediaType,
    pub load_segment: u16,
    pub system_type: u8,
    pub sector_count: u16,
    pub virtual_disk_location: u32,
}

#[derive(Debug, Clone, Copy)]
pub struct ElToritoSectionHeaderEntry {
    pub header_indicator: ElToritoHeaderIndicator,
    pub platform_id: ElToritoPlatformId,
    pub succeeding_section_entries: u16,
    pub section_id: ElToritoSectionId,
}

#[derive(Debug, Clone, Copy)]
pub struct ElToritoValidationEntry {
    pub header_id: ElToritoHeaderId,
    pub platform_id: ElToritoPlatformId,
    pub manufacturer_id: ElToritoManufacturerId,
    pub checksum: u16,
}

#[derive(Debug, Clone, Copy)]
pub struct ElToritoSectionEntry {
    pub boot_indicator: ElToritoBootIndicator,
    pub boot_media_type: ElToritoBootMediaTypeExt,
    pub load_segment: u16,
    pub system_type: u8,
    pub sector_count: u16,
    pub virtual_disk_location: u32,
    pub selection_criteria_type: ElToritoSelectionCriteriaType,
    pub vendor_selection_criteria: [u8; 18],
}

#[derive(Debug, Clone, Copy)]
pub struct ElToritoSectionEntryExtension {
    pub extension_record_follows_indicator: ElToritoExtensionRecordFollowsIndicator,
    pub vendor_unique_selection_criteria: [u8; 29],
}

#[derive(Debug, Clone, Copy)]
pub struct ElToritoBootRecordVolumeDescriptor {
    pub standard_identifier: StandardIdentifier,
    pub version: VolumeDescriptorVersion,
    pub boot_catalog_pointer: u32,
}

} // verus!
