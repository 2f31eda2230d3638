//! Byte encodings of the records: numbers in little-endian, big-endian or
//! both orders, identifiers padded to their fields.

use vstd::prelude::*;
use crate::error::Error;
use crate::iso9660::{
    DirectoryRecord, NumericalDate, PathTableRecord, DigitsDate, MAX_IDENTIFIER_LENGTH,
};

verus! {

pub open spec fn le16(v: u16) -> Seq<u8> {
    seq![(v % 256) as u8, (v / 256) as u8]
}

pub open spec fn be16(v: u16) -> Seq<u8> {
    seq![(v / 256) as u8, (v % 256) as u8]
}

pub open spec fn le32(v: u32) -> Seq<u8> {
    seq![
        (v % 256) as u8,
        ((v / 256) % 256) as u8,
        ((v / 65536) % 256) as u8,
        (v / 16777216) as u8,
    ]
}

pub open spec fn be32(v: u32) -> Seq<u8> {
    seq![
        (v / 16777216) as u8,
        ((v / 65536) % 256) as u8,
        ((v / 256) % 256) as u8,
        (v % 256) as u8,
    ]
}

/// A 16-bit number in both byte orders, little-endian first.
pub open spec fn both16(v: u16) -> Seq<u8> {
    le16(v) + be16(v)
}

/// A 32-bit number in both byte orders, little-endian first.
pub open spec fn both32(v: u32) -> Seq<u8> {
    le32(v) + be32(v)
}

pub open spec fn numerical_date_bytes(d: NumericalDate) -> Seq<u8> {
    seq![
        d.years_since_1900.0,
        d.month.0,
        d.day.0,
        d.hour.0,
        d.minute.0,
        d.second.0,
        d.gmt_offset.0 as u8,
    ]
}

/// `n` zero bytes.
pub open spec fn zeros(n: nat) -> Seq<u8> {
    Seq::new(n, |i: int| 0u8)
}

/// Encoded length of a directory record whose identifier has `len` bytes.
pub open spec fn directory_record_length(len: nat) -> nat {
    33 + len + if len % 2 == 0 { 1nat } else { 0nat }
}

/// The bytes of a directory record.
pub open spec fn directory_record_bytes(r: DirectoryRecord) -> Seq<u8> {
    let id = r.file_identifier.bytes@;
    seq![directory_record_length(id.len()) as u8, r.extended_attribute_length] + both32(
        r.extent_location,
    ) + both32(r.data_length) + numerical_date_bytes(r.recording_date) + seq![
        r.file_flags.bits,
        r.file_unit_size,
        r.interleave_gap_size,
    ] + both16(r.volume_sequence_number) + seq![id.len() as u8] + id + zeros(
        (if id.len() % 2 == 0 { 1nat } else { 0nat }),
    )
}

/// The bytes of a path table record, numbers little-endian (Type L) or
/// big-endian (Type M).
pub open spec fn path_record_bytes(r: PathTableRecord, big_endian: bool) -> Seq<u8> {
    let id = if r.directory_identifier.bytes@.len() == 0 {
        seq![0u8]
    } else {
        r.directory_identifier.bytes@
    };
    seq![id.len() as u8, r.extended_attribute_record_length] + (if big_endian {
        be32(r.extent_location) + be16(r.parent_directory_number)
    } else {
        le32(r.extent_location) + le16(r.parent_directory_number)
    }) + id + zeros((if id.len() % 2 == 1 { 1nat } else { 0nat }))
}

pub fn push_le16(buf: &mut Vec<u8>, v: u16)
    ensures
        final(buf)@ == old(buf)@ + le16(v),
{
    buf.push((v % 256) as u8);
    buf.push((v / 256) as u8);
    assert(final(buf)@ =~= old(buf)@ + le16(v));
}

pub fn push_be16(buf: &mut Vec<u8>, v: u16)
    ensures
        final(buf)@ == old(buf)@ + be16(v),
{
    buf.push((v / 256) as u8);
    buf.push((v % 256) as u8);
    assert(final(buf)@ =~= old(buf)@ + be16(v));
}

pub fn push_le32(buf: &mut Vec<u8>, v: u32)
    ensures
        final(buf)@ == old(buf)@ + le32(v),
{
    buf.push((v % 256) as u8);
    buf.push(((v / 256) % 256) as u8);
    buf.push(((v / 65536) % 256) as u8);
    buf.push((v / 16777216) as u8);
    assert(final(buf)@ =~= old(buf)@ + le32(v));
}

pub fn push_be32(buf: &mut Vec<u8>, v: u32)
    ensures
        final(buf)@ == old(buf)@ + be32(v),
{
    buf.push((v / 16777216) as u8);
    buf.push(((v / 65536) % 256) as u8);
    buf.push(((v / 256) % 256) as u8);
    buf.push((v % 256) as u8);
    assert(final(buf)@ =~= old(buf)@ + be32(v));
}

pub fn push_both16(buf: &mut Vec<u8>, v: u16)
    ensures
        final(buf)@ == old(buf)@ + both16(v),
{
    push_le16(buf, v);
    push_be16(buf, v);
    assert(final(buf)@ =~= old(buf)@ + both16(v));
}

pub fn push_both32(buf: &mut Vec<u8>, v: u32)
    ensures
        final(buf)@ == old(buf)@ + both32(v),
{
    push_le32(buf, v);
    push_be32(buf, v);
    assert(final(buf)@ =~= old(buf)@ + both32(v));
}

pub fn push_bytes(buf: &mut Vec<u8>, b: &[u8])
    ensures
        final(buf)@ == old(buf)@ + b@,
{
    let mut i: usize = 0;
    while i < b.len()
        invariant
            i <= b@.len(),
            buf@ == old(buf)@ + b@.take(i as int),
        decreases b@.len() - i,
    {
        buf.push(b[i]);
        i = i + 1;
        assert(buf@ =~= old(buf)@ + b@.take(i as int));
    }
    assert(b@.take(i as int) =~= b@);
}

pub fn push_zeros(buf: &mut Vec<u8>, n: usize)
    ensures
        final(buf)@ == old(buf)@ + zeros(n as nat),
{
    let mut i: usize = 0;
    while i < n
        invariant
            i <= n,
            buf@ == old(buf)@ + zeros(i as nat),
        decreases n - i,
    {
        buf.push(0);
        i = i + 1;
        assert(buf@ =~= old(buf)@ + zeros(i as nat));
    }
}

/// Appends `b` and then `fill` until the field's `width` bytes are used.
pub fn push_padded(buf: &mut Vec<u8>, b: &[u8], width: usize, fill: u8)
    requires
        b@.len() <= width,
    ensures
        final(buf)@ == old(buf)@ + b@ + Seq::new((width - b@.len()) as nat, |i: int| fill),
{
    push_bytes(buf, b);
    let ghost mid = buf@;
    let mut i: usize = b.len();
    while i < width
        invariant
            b@.len() <= i <= width,
            buf@ == mid + Seq::new((i - b@.len()) as nat, |k: int| fill),
        decreases width - i,
    {
        buf.push(fill);
        i = i + 1;
        assert(buf@ =~= mid + Seq::new((i - b@.len()) as nat, |k: int| fill));
    }
}

pub fn push_numerical_date(buf: &mut Vec<u8>, d: &NumericalDate)
    ensures
        final(buf)@ == old(buf)@ + numerical_date_bytes(*d),
{
    buf.push(d.years_since_1900.0);
    buf.push(d.month.0);
    buf.push(d.day.0);
    buf.push(d.hour.0);
    buf.push(d.minute.0);
    buf.push(d.second.0);
    buf.push(d.gmt_offset.0 as u8);
    assert(final(buf)@ =~= old(buf)@ + numerical_date_bytes(*d));
}

/// Digits of `v` in decimal, most significant first, `n` of them.
pub open spec fn decimal_digits(v: nat, n: nat) -> Seq<u8>
    decreases n,
{
    if n == 0 {
        seq![]
    } else {
        decimal_digits(v / 10, (n - 1) as nat) + seq![(0x30 + v % 10) as u8]
    }
}

pub fn push_decimal(buf: &mut Vec<u8>, v: u32, n: usize)
    requires
        n <= 10,
    ensures
        final(buf)@ == old(buf)@ + decimal_digits(v as nat, n as nat),
    decreases n,
{
    if n > 0 {
        push_decimal(buf, v / 10, n - 1);
        buf.push((0x30 + v % 10) as u8);
        assert(final(buf)@ =~= old(buf)@ + decimal_digits(v as nat, n as nat));
    }
}

pub open spec fn digits_date_bytes(d: DigitsDate) -> Seq<u8> {
    decimal_digits(d.year.0 as nat, 4) + decimal_digits(d.month.0 as nat, 2) + decimal_digits(
        d.day.0 as nat,
        2,
    ) + decimal_digits(d.hour.0 as nat, 2) + decimal_digits(d.minute.0 as nat, 2)
        + decimal_digits(d.second.0 as nat, 2) + decimal_digits(d.hundreths.0 as nat, 2) + seq![
        d.gmt_offset.0 as u8,
    ]
}

pub fn push_digits_date(buf: &mut Vec<u8>, d: &DigitsDate)
    ensures
        final(buf)@ == old(buf)@ + digits_date_bytes(*d),
{
    push_decimal(buf, d.year.0 as u32, 4);
    push_decimal(buf, d.month.0 as u32, 2);
    push_decimal(buf, d.day.0 as u32, 2);
    push_decimal(buf, d.hour.0 as u32, 2);
    push_decimal(buf, d.minute.0 as u32, 2);
    push_decimal(buf, d.second.0 as u32, 2);
    push_decimal(buf, d.hundreths.0 as u32, 2);
    buf.push(d.gmt_offset.0 as u8);
    assert(final(buf)@ =~= old(buf)@ + digits_date_bytes(*d));
}

/// The bytes of a directory record, or an encoding error where its
/// identifier is too long for the one-byte record length.
pub fn encode_directory_record(r: &DirectoryRecord) -> (out: Result<Vec<u8>, Error>)
    ensures
        out is Ok <==> directory_record_length(r.file_identifier.bytes@.len()) <= 255,
        out is Err ==> out == Err::<Vec<u8>, Error>(Error::Encoding),
        out matches Ok(b) ==> b@ == directory_record_bytes(*r) && b@.len()
            == directory_record_length(r.file_identifier.bytes@.len()),
{
    let id = r.file_identifier.bytes.as_slice();
    if id.len() > 221 {
        return Err(Error::Encoding);
    }
    let pad: usize = if id.len() % 2 == 0 { 1 } else { 0 };
    let len = 33 + id.len() + pad;
    let mut buf: Vec<u8> = Vec::new();
    buf.push(len as u8);
    buf.push(r.extended_attribute_length);
    push_both32(&mut buf, r.extent_location);
    push_both32(&mut buf, r.data_length);
    push_numerical_date(&mut buf, &r.recording_date);
    buf.push(r.file_flags.bits);
    buf.push(r.file_unit_size);
    buf.push(r.interleave_gap_size);
    push_both16(&mut buf, r.volume_sequence_number);
    buf.push(id.len() as u8);
    push_bytes(&mut buf, id);
    push_zeros(&mut buf, pad);
    assert(buf@ =~= directory_record_bytes(*r));
    Ok(buf)
}

/// The bytes of a path table record.
pub fn encode_path_table_record(r: &PathTableRecord, big_endian: bool) -> (out: Vec<u8>)
    requires
        r.directory_identifier.bytes@.len() <= MAX_IDENTIFIER_LENGTH,
    ensures
        out@ == path_record_bytes(*r, big_endian),
        out@.len() == r.spec_extent(),
{
    let zero: [u8; 1] = [0];
    let id = if r.directory_identifier.bytes.len() == 0 {
        zero.as_slice()
    } else {
        r.directory_identifier.bytes.as_slice()
    };
    assert(id@ =~= (if r.directory_identifier.bytes@.len() == 0 {
        seq![0u8]
    } else {
        r.directory_identifier.bytes@
    }));
    let mut buf: Vec<u8> = Vec::new();
    buf.push(id.len() as u8);
    buf.push(r.extended_attribute_record_length);
    if big_endian {
        push_be32(&mut buf, r.extent_location);
        push_be16(&mut buf, r.parent_directory_number);
    } else {
        push_le32(&mut buf, r.extent_location);
        push_le16(&mut buf, r.parent_directory_number);
    }
    push_bytes(&mut buf, id);
    let pad: usize = if id.len() % 2 == 1 { 1 } else { 0 };
    push_zeros(&mut buf, pad);
    assert(buf@ =~= path_record_bytes(*r, big_endian));
    buf
}

} // verus!
