//! Byte encodings of the volume descriptors: one sector each.

use vstd::prelude::*;
use crate::codec::{
    be32, both16, both32, digits_date_bytes, le32, numerical_date_bytes, push_be32, push_both16,
    push_both32, push_bytes, push_digits_date, decimal_digits, push_le32, push_numerical_date, push_padded,
    push_zeros, zeros,
};
use crate::iso9660::{
    Identifier, PrimaryVolumeDescriptor, RootDirectoryRecord,
    StandardIdentifier, VolumeDescriptorSetTerminator, APPLICATION_IDENTIFIER_WIDTH,
    DATA_PREPARER_IDENTIFIER_WIDTH, FILE_IDENTIFIER_WIDTH, PUBLISHER_IDENTIFIER_WIDTH,
    SYSTEM_IDENTIFIER_WIDTH, VOLUME_IDENTIFIER_WIDTH, VOLUME_SET_IDENTIFIER_WIDTH,
};

verus! {

/// Bytes of one descriptor.
pub const DESCRIPTOR_LENGTH: usize = 2048;

/// Type byte of a primary volume descriptor.
pub const PRIMARY_TYPE: u8 = 1;

/// Type byte of a supplementary volume descriptor.
pub const SUPPLEMENTARY_TYPE: u8 = 2;

/// Type byte of the set terminator.
pub const TERMINATOR_TYPE: u8 = 255;

/// `b` followed by spaces up to `width` bytes.
pub open spec fn padded(b: Seq<u8>, width: nat) -> Seq<u8> {
    b + Seq::new((width - b.len()) as nat, |i: int| 0x20u8)
}

/// The root's 34-byte record inside a volume descriptor.
pub open spec fn root_record_bytes(r: RootDirectoryRecord) -> Seq<u8> {
    seq![34u8, 0u8] + both32(r.extent_location) + both32(r.data_length) + numerical_date_bytes(
        r.recording_date,
    ) + seq![r.file_flags.bits, r.file_unit_size, r.interleave_gap_size] + both16(
        r.volume_sequence_number,
    ) + seq![1u8, 0u8]
}

/// Identifier fields fit their widths.
pub open spec fn fields_fit(d: PrimaryVolumeDescriptor) -> bool {
    &&& d.system_identifier.bytes@.len() <= SYSTEM_IDENTIFIER_WIDTH
    &&& d.volume_identifier.bytes@.len() <= VOLUME_IDENTIFIER_WIDTH
    &&& d.volume_set_identifier.bytes@.len() <= VOLUME_SET_IDENTIFIER_WIDTH
    &&& d.publisher_identifier.bytes@.len() <= PUBLISHER_IDENTIFIER_WIDTH
    &&& d.data_preparer_identifier.bytes@.len() <= DATA_PREPARER_IDENTIFIER_WIDTH
    &&& d.application_identifier.bytes@.len() <= APPLICATION_IDENTIFIER_WIDTH
    &&& d.copyright_file_identifier.bytes@.len() <= FILE_IDENTIFIER_WIDTH
    &&& d.abstract_file_identifier.bytes@.len() <= FILE_IDENTIFIER_WIDTH
    &&& d.bibliographic_file_identifier.bytes@.len() <= FILE_IDENTIFIER_WIDTH
}

/// Bytes 0 to 190 of a volume descriptor: its kind, identifiers of the
/// system and volume, sizes, path table locations and the root's record.
pub closed spec fn descriptor_head(
    d: PrimaryVolumeDescriptor,
    kind: u8,
    flags: u8,
    escapes: Seq<u8>,
) -> Seq<u8> {
    seq![kind] + d.standard_identifier.spec_bytes() + seq![d.version_code(), flags] + padded(
        d.system_identifier.bytes@,
        32,
    ) + padded(d.volume_identifier.bytes@, 32) + zeros(8) + both32(d.volume_space_size)
        + escapes + both16(d.volume_set_size) + both16(d.volume_sequence_number) + both16(
        d.logical_block_size,
    ) + both32(d.path_table_size) + le32(d.type_l_path_table_location) + le32(
        d.optional_type_l_path_table_location,
    ) + be32(d.type_m_path_table_location) + be32(d.optional_type_m_path_table_location)
        + root_record_bytes(d.root_directory_record)
}

/// Bytes 190 to 813: the text fields.
pub closed spec fn descriptor_names(d: PrimaryVolumeDescriptor) -> Seq<u8> {
    padded(d.volume_set_identifier.bytes@, 128) + padded(d.publisher_identifier.bytes@, 128)
        + padded(d.data_preparer_identifier.bytes@, 128) + padded(
        d.application_identifier.bytes@,
        128,
    ) + padded(d.copyright_file_identifier.bytes@, 37) + padded(
        d.abstract_file_identifier.bytes@,
        37,
    ) + padded(d.bibliographic_file_identifier.bytes@, 37)
}

/// Bytes 813 to 2048: the dates, the file structure version and the
/// unused rest.
pub closed spec fn descriptor_tail(d: PrimaryVolumeDescriptor) -> Seq<u8> {
    digits_date_bytes(d.creation_date) + digits_date_bytes(d.modification_date)
        + digits_date_bytes(d.expiration_date) + digits_date_bytes(d.effective_date) + seq![
        d.file_structure_code(),
        0u8,
    ] + zeros(512) + zeros(653)
}

/// The sector of a primary (`kind` 1) or supplementary (`kind` 2) volume
/// descriptor with the fields of `d`, the volume flags `flags` and the
/// escape sequences `escapes`.
pub closed spec fn descriptor_bytes(
    d: PrimaryVolumeDescriptor,
    kind: u8,
    flags: u8,
    escapes: Seq<u8>,
) -> Seq<u8> {
    descriptor_head(d, kind, flags, escapes) + descriptor_names(d) + descriptor_tail(d)
}

impl PrimaryVolumeDescriptor {
    pub open spec fn version_code(&self) -> u8 {
        match self.version {
            crate::iso9660::VolumeDescriptorVersion::Standard => 1,
            crate::iso9660::VolumeDescriptorVersion::Other(v) => v,
        }
    }

    pub open spec fn file_structure_code(&self) -> u8 {
        match self.file_structure_version {
            crate::iso9660::FileStructureVersion::Standard => 1,
            crate::iso9660::FileStructureVersion::Other(v) => v,
        }
    }
}

fn push_root_record(buf: &mut Vec<u8>, r: &RootDirectoryRecord)
    ensures
        final(buf)@ == old(buf)@ + root_record_bytes(*r),
{
    buf.push(34);
    buf.push(0);
    push_both32(buf, r.extent_location);
    push_both32(buf, r.data_length);
    push_numerical_date(buf, &r.recording_date);
    buf.push(r.file_flags.bits);
    buf.push(r.file_unit_size);
    buf.push(r.interleave_gap_size);
    push_both16(buf, r.volume_sequence_number);
    buf.push(1);
    buf.push(0);
    assert(final(buf)@ =~= old(buf)@ + root_record_bytes(*r));
}

fn push_field(buf: &mut Vec<u8>, id: &Identifier, width: usize)
    requires
        id.bytes@.len() <= width,
    ensures
        final(buf)@ == old(buf)@ + padded(id.bytes@, width as nat),
{
    push_padded(buf, id.bytes.as_slice(), width, 0x20);
}

fn push_head(buf: &mut Vec<u8>, d: &PrimaryVolumeDescriptor, kind: u8, flags: u8, escapes: &[u8])
    requires
        fields_fit(*d),
    ensures
        final(buf)@ == old(buf)@ + descriptor_head(*d, kind, flags, escapes@),
{
    let ghost b0 = buf@;
    buf.push(kind);
    let sid = d.standard_identifier.as_bytes();
    push_bytes(buf, sid.as_slice());
    buf.push(d.version.code());
    buf.push(flags);
    push_field(buf, &d.system_identifier, 32);
    push_field(buf, &d.volume_identifier, 32);
    push_zeros(buf, 8);
    push_both32(buf, d.volume_space_size);
    push_bytes(buf, escapes);
    let ghost b1 = buf@;
    assert(b1 =~= b0 + (seq![kind] + d.standard_identifier.spec_bytes() + seq![d.version_code(), flags] + padded(
        d.system_identifier.bytes@,
        32,
    ) + padded(d.volume_identifier.bytes@, 32) + zeros(8) + both32(d.volume_space_size)
        + escapes@));
    push_both16(buf, d.volume_set_size);
    push_both16(buf, d.volume_sequence_number);
    push_both16(buf, d.logical_block_size);
    push_both32(buf, d.path_table_size);
    push_le32(buf, d.type_l_path_table_location);
    push_le32(buf, d.optional_type_l_path_table_location);
    push_be32(buf, d.type_m_path_table_location);
    push_be32(buf, d.optional_type_m_path_table_location);
    push_root_record(buf, &d.root_directory_record);
    assert(buf@ =~= b1 + (both16(d.volume_set_size) + both16(d.volume_sequence_number) + both16(
        d.logical_block_size,
    ) + both32(d.path_table_size) + le32(d.type_l_path_table_location) + le32(
        d.optional_type_l_path_table_location,
    ) + be32(d.type_m_path_table_location) + be32(d.optional_type_m_path_table_location)
        + root_record_bytes(d.root_directory_record)));
    assert(buf@ =~= old(buf)@ + descriptor_head(*d, kind, flags, escapes@));
}

fn push_names(buf: &mut Vec<u8>, d: &PrimaryVolumeDescriptor)
    requires
        fields_fit(*d),
    ensures
        final(buf)@ == old(buf)@ + descriptor_names(*d),
{
    push_field(buf, &d.volume_set_identifier, 128);
    push_field(buf, &d.publisher_identifier, 128);
    push_field(buf, &d.data_preparer_identifier, 128);
    push_field(buf, &d.application_identifier, 128);
    push_field(buf, &d.copyright_file_identifier, 37);
    push_field(buf, &d.abstract_file_identifier, 37);
    push_field(buf, &d.bibliographic_file_identifier, 37);
    assert(buf@ =~= old(buf)@ + descriptor_names(*d));
}

fn push_tail(buf: &mut Vec<u8>, d: &PrimaryVolumeDescriptor)
    ensures
        final(buf)@ == old(buf)@ + descriptor_tail(*d),
{
    push_digits_date(buf, &d.creation_date);
    push_digits_date(buf, &d.modification_date);
    push_digits_date(buf, &d.expiration_date);
    push_digits_date(buf, &d.effective_date);
    buf.push(d.file_structure_version.code());
    buf.push(0);
    push_zeros(buf, 512);
    push_zeros(buf, 653);
    assert(buf@ =~= old(buf)@ + descriptor_tail(*d));
}

proof fn lemma_padded_len(b: Seq<u8>, w: nat)
    requires
        b.len() <= w,
    ensures
        padded(b, w).len() == w,
{
}

proof fn lemma_digits_len(v: nat, n: nat)
    ensures
        decimal_digits(v, n).len() == n,
    decreases n,
{
    if n > 0 {
        lemma_digits_len(v / 10, (n - 1) as nat);
    }
}

proof fn lemma_date_len(d: crate::iso9660::DigitsDate)
    ensures
        digits_date_bytes(d).len() == 17,
{
    lemma_digits_len(d.year.0 as nat, 4);
    lemma_digits_len(d.month.0 as nat, 2);
    lemma_digits_len(d.day.0 as nat, 2);
    lemma_digits_len(d.hour.0 as nat, 2);
    lemma_digits_len(d.minute.0 as nat, 2);
    lemma_digits_len(d.second.0 as nat, 2);
    lemma_digits_len(d.hundreths.0 as nat, 2);
}

proof fn lemma_head_len(d: PrimaryVolumeDescriptor, kind: u8, flags: u8, escapes: Seq<u8>)
    requires
        fields_fit(d),
        escapes.len() == 32,
    ensures
        descriptor_head(d, kind, flags, escapes).len() == 190,
{
    lemma_padded_len(d.system_identifier.bytes@, 32);
    lemma_padded_len(d.volume_identifier.bytes@, 32);
    assert(d.standard_identifier.spec_bytes().len() == 5);
}

proof fn lemma_names_len(d: PrimaryVolumeDescriptor)
    requires
        fields_fit(d),
    ensures
        descriptor_names(d).len() == 623,
{
    lemma_padded_len(d.volume_set_identifier.bytes@, 128);
    lemma_padded_len(d.publisher_identifier.bytes@, 128);
    lemma_padded_len(d.data_preparer_identifier.bytes@, 128);
    lemma_padded_len(d.application_identifier.bytes@, 128);
    lemma_padded_len(d.copyright_file_identifier.bytes@, 37);
    lemma_padded_len(d.abstract_file_identifier.bytes@, 37);
    lemma_padded_len(d.bibliographic_file_identifier.bytes@, 37);
}

proof fn lemma_tail_len(d: PrimaryVolumeDescriptor)
    ensures
        descriptor_tail(d).len() == 1235,
{
    lemma_date_len(d.creation_date);
    lemma_date_len(d.modification_date);
    lemma_date_len(d.expiration_date);
    lemma_date_len(d.effective_date);
}

/// Encodes a volume descriptor sector.
pub fn encode_descriptor(
    d: &PrimaryVolumeDescriptor,
    kind: u8,
    flags: u8,
    escapes: &[u8],
) -> (r: Vec<u8>)
    requires
        fields_fit(*d),
        escapes@.len() == 32,
    ensures
        r@ == descriptor_bytes(*d, kind, flags, escapes@),
        r@.len() == DESCRIPTOR_LENGTH,
        r@[0] == kind,
{
    let mut buf: Vec<u8> = Vec::new();
    push_head(&mut buf, d, kind, flags, escapes);
    push_names(&mut buf, d);
    push_tail(&mut buf, d);
    proof {
        assert(buf@ =~= descriptor_bytes(*d, kind, flags, escapes@));
        lemma_head_len(*d, kind, flags, escapes@);
        lemma_names_len(*d);
        lemma_tail_len(*d);
    }
    buf
}

/// The terminator sector: type 255, the standard identifier, version 1,
/// then zeros.
pub open spec fn terminator_bytes() -> Seq<u8> {
    seq![255u8, 0x43u8, 0x44u8, 0x30u8, 0x30u8, 0x31u8, 1u8] + zeros(2041)
}

impl VolumeDescriptorSetTerminator {
    pub fn encode(&self) -> (r: Vec<u8>)
        ensures
            r@ == terminator_bytes(),
            r@.len() == DESCRIPTOR_LENGTH,
    {
        let mut buf: Vec<u8> = Vec::new();
        buf.push(TERMINATOR_TYPE);
        let sid = StandardIdentifier::Cd001.as_bytes();
        push_bytes(&mut buf, sid.as_slice());
        buf.push(1);
        push_zeros(&mut buf, 2041);
        assert(buf@ =~= terminator_bytes());
        buf
    }
}

} // verus!
