//! The header of a bundle: what the file is, and where its tables lie.

use vstd::prelude::*;
use crate::checksum::{checksum, crc32};
use crate::codec::{
    holds_at, laid, le32, le64, le8, lemma_holds_at_concat, lemma_le_len, lemma_overlay_concat,
    lemma_parse_u32_at, lemma_parse_u64_at, overlay, parse_u32, parse_u64, parsed, put_u32, put_u64,
    put_u8, span_error, take_u32, take_u64, take_u8,
};
use crate::error::Error;
use crate::index::group_index;

verus! {

/// The first four bytes of a bundle, `R E D S`, read as a big-endian number.
pub const MAGIC: u32 = 0x5245_4453;

/// The one version of the format that is read and written.
pub const SUPPORTED_VERSION: u32 = 14;

/// The number of bytes that the header takes.
pub const HEADER_BYTES: u32 = 104;

/// The number of segments that a written bundle announces: the string data
/// and six tables.
pub const SEGMENTS: u32 = 7;

/// What stands in the checksum field while the header's own checksum is
/// computed.
pub const UNSTAMPED: u32 = 0xDEAD_BEEF;

/// The big-endian number that four bytes make.
pub open spec fn be32_of(b0: u8, b1: u8, b2: u8, b3: u8) -> u32 {
    (b0 * 0x100_0000 + b1 * 0x1_0000 + b2 * 0x100 + b3) as u32
}

/// A number as four bytes, the most significant first.
pub open spec fn be32_wire(v: u32) -> Seq<u8> {
    le8((v / 0x100_0000) as u8) + le8((v / 0x1_0000 % 0x100) as u8) + le8((v / 0x100 % 0x100) as u8)
        + le8((v % 0x100) as u8)
}

/// The big-endian number at `pos`, and the position after it.
pub open spec fn parse_be32(bytes: Seq<u8>, pos: int) -> Result<(u32, int), Error> {
    match span_error(bytes.len(), pos, 4) {
        Some(e) => Err(e),
        None => Ok((be32_of(bytes[pos], bytes[pos + 1], bytes[pos + 2], bytes[pos + 3]), pos + 4)),
    }
}

/// Decodes the big-endian number at `pos`.
pub fn take_be32(bytes: &[u8], pos: usize) -> (r: Result<(u32, usize), Error>)
    ensures
        parsed(parse_be32(bytes@, pos as int), r),
{
    let (b0, n0) = take_u8(bytes, pos)?;
    let (b1, n1) = take_u8(bytes, n0)?;
    let (b2, n2) = take_u8(bytes, n1)?;
    let (b3, n3) = take_u8(bytes, n2)?;
    let v: u32 = b0 as u32 * 0x100_0000 + b1 as u32 * 0x1_0000 + b2 as u32 * 0x100 + b3 as u32;
    Ok((v, n3))
}

/// Lays a big-endian number over the buffer at `pos`.
pub(crate) fn put_be32(bytes: &mut [u8], pos: usize, v: u32) -> (r: Result<usize, Error>)
    requires
        pos + 4 <= old(bytes)@.len(),
    ensures
        laid(old(bytes)@, pos as int, be32_wire(v), r, final(bytes)@),
{
    let b0: u8 = (v / 0x100_0000) as u8;
    let b1: u8 = (v / 0x1_0000 % 0x100) as u8;
    let b2: u8 = (v / 0x100 % 0x100) as u8;
    let b3: u8 = (v % 0x100) as u8;
    let n0 = put_u8(bytes, pos, b0)?;
    let n1 = put_u8(bytes, n0, b1)?;
    proof {
        lemma_overlay_concat(old(bytes)@, pos as int, le8(b0), le8(b1));
    }
    let n2 = put_u8(bytes, n1, b2)?;
    proof {
        lemma_overlay_concat(old(bytes)@, pos as int, le8(b0) + le8(b1), le8(b2));
    }
    let n3 = put_u8(bytes, n2, b3)?;
    proof {
        lemma_overlay_concat(old(bytes)@, pos as int, le8(b0) + le8(b1) + le8(b2), le8(b3));
    }
    Ok(n3)
}

/// A big-endian number that the buffer holds is read back.
pub proof fn lemma_parse_be32_at(bytes: Seq<u8>, pos: int, v: u32)
    requires
        holds_at(bytes, pos, be32_wire(v)),
    ensures
        be32_wire(v).len() == 4,
        parse_be32(bytes, pos) == Ok::<(u32, int), Error>((v, pos + 4)),
{
    let w = be32_wire(v);
    assert(bytes.subrange(pos, pos + 4)[0] == w[0]);
    assert(bytes.subrange(pos, pos + 4)[1] == w[1]);
    assert(bytes.subrange(pos, pos + 4)[2] == w[2]);
    assert(bytes.subrange(pos, pos + 4)[3] == w[3]);
}

/// A big-endian number takes four bytes.
pub proof fn lemma_be32_len()
    ensures
        forall|v: u32| #[trigger] be32_wire(v).len() == 4,
{
}

/// The four bytes of the magic number are `R E D S`.
pub proof fn lemma_magic_bytes()
    ensures
        be32_wire(MAGIC) == seq![0x52u8, 0x45u8, 0x44u8, 0x53u8],
        forall|b0: u8, b1: u8, b2: u8, b3: u8|
            #[trigger] be32_of(b0, b1, b2, b3) == MAGIC <==> b0 == 0x52 && b1 == 0x45 && b2 == 0x44
                && b3 == 0x53,
{
    assert(be32_wire(MAGIC) =~= seq![0x52u8, 0x45u8, 0x44u8, 0x53u8]);
}

/// When a bundle was built, packed into 64 bits.
#[derive(Debug, Clone, Copy, PartialEq, Eq, Hash)]
pub struct Timestamp {
    pub bits: u64,
}

impl Timestamp {
    /// The timestamp that is all zero.
    pub fn new() -> (t: Self)
        ensures
            t.bits == 0,
    {
        Timestamp { bits: 0 }
    }

    /// The timestamp of a date and a time of day.
    pub fn pack(
        year: u16,
        month: u8,
        day: u8,
        hours: u8,
        minutes: u8,
        seconds: u8,
        millis: u16,
    ) -> (t: Self)
        requires
            year < 4096,
            month < 32,
            day < 32,
            hours < 64,
            minutes < 64,
            seconds < 64,
            millis < 1024,
        ensures
            t.year() == year,
            t.month() == month,
            t.day() == day,
            t.hours() == hours,
            t.minutes() == minutes,
            t.seconds() == seconds,
            t.millis() == millis,
    {
        let d: u64 = day as u64;
        let m: u64 = month as u64;
        let y: u64 = year as u64;
        let ms: u64 = millis as u64;
        let s: u64 = seconds as u64;
        let min: u64 = minutes as u64;
        let h: u64 = hours as u64;
        let date: u64 = (d << 10) | (m << 15) | (y << 20);
        let time: u64 = (ms << 32) | (s << 42) | (min << 48) | (h << 54);
        let bits: u64 = date | time;
        assert((bits >> 10) & 0x1F == d && (bits >> 15) & 0x1F == m && (bits >> 20) & 0xFFF == y
            && (bits >> 32) & 0x3FF == ms && (bits >> 42) & 0x3F == s && (bits >> 48) & 0x3F == min
            && (bits >> 54) & 0x3F == h) by (bit_vector)
            requires
                date == (d << 10) | (m << 15) | (y << 20),
                time == (ms << 32) | (s << 42) | (min << 48) | (h << 54),
                bits == date | time,
                d < 32,
                m < 32,
                y < 4096,
                ms < 1024,
                s < 64,
                min < 64,
                h < 64,
        ;
        Timestamp { bits }
    }

    /// The day of the month.
    pub open spec fn spec_day(&self) -> u8 {
        ((self.bits >> 10) & 0x1F) as u8
    }

    /// The day of the month.
    #[verifier::when_used_as_spec(spec_day)]
    pub fn day(&self) -> (v: u8)
        ensures
            v == self.spec_day(),
    {
        #[verifier::truncate]
        (((self.bits >> 10) & 0x1F) as u8)
    }

    /// The month.
    pub open spec fn spec_month(&self) -> u8 {
        ((self.bits >> 15) & 0x1F) as u8
    }

    /// The month.
    #[verifier::when_used_as_spec(spec_month)]
    pub fn month(&self) -> (v: u8)
        ensures
            v == self.spec_month(),
    {
        #[verifier::truncate]
        (((self.bits >> 15) & 0x1F) as u8)
    }

    /// The year.
    pub open spec fn spec_year(&self) -> u16 {
        ((self.bits >> 20) & 0xFFF) as u16
    }

    /// The year.
    #[verifier::when_used_as_spec(spec_year)]
    pub fn year(&self) -> (v: u16)
        ensures
            v == self.spec_year(),
    {
        #[verifier::truncate]
        (((self.bits >> 20) & 0xFFF) as u16)
    }

    /// The milliseconds.
    pub open spec fn spec_millis(&self) -> u16 {
        ((self.bits >> 32) & 0x3FF) as u16
    }

    /// The milliseconds.
    #[verifier::when_used_as_spec(spec_millis)]
    pub fn millis(&self) -> (v: u16)
        ensures
            v == self.spec_millis(),
    {
        #[verifier::truncate]
        (((self.bits >> 32) & 0x3FF) as u16)
    }

    /// The seconds.
    pub open spec fn spec_seconds(&self) -> u8 {
        ((self.bits >> 42) & 0x3F) as u8
    }

    /// The seconds.
    #[verifier::when_used_as_spec(spec_seconds)]
    pub fn seconds(&self) -> (v: u8)
        ensures
            v == self.spec_seconds(),
    {
        #[verifier::truncate]
        (((self.bits >> 42) & 0x3F) as u8)
    }

    /// The minutes.
    pub open spec fn spec_minutes(&self) -> u8 {
        ((self.bits >> 48) & 0x3F) as u8
    }

    /// The minutes.
    #[verifier::when_used_as_spec(spec_minutes)]
    pub fn minutes(&self) -> (v: u8)
        ensures
            v == self.spec_minutes(),
    {
        #[verifier::truncate]
        (((self.bits >> 48) & 0x3F) as u8)
    }

    /// The hours.
    pub open spec fn spec_hours(&self) -> u8 {
        ((self.bits >> 54) & 0x3F) as u8
    }

    /// The hours.
    #[verifier::when_used_as_spec(spec_hours)]
    pub fn hours(&self) -> (v: u8)
        ensures
            v == self.spec_hours(),
    {
        #[verifier::truncate]
        (((self.bits >> 54) & 0x3F) as u8)
    }
}

/// Where a table lies, how many entries it has, and the checksum of its
/// bytes.
#[derive(Debug, Clone, Copy, PartialEq, Eq)]
pub struct TableHeader {
    pub offset: u32,
    pub count: u32,
    pub hash: u32,
}

impl TableHeader {
    /// What the header says of a table that starts at `offset`, has `count`
    /// entries and takes the bytes `bytes`.
    pub fn new(offset: u32, count: u32, bytes: &[u8]) -> (table: Self)
        ensures
            table == (TableHeader { offset, count, hash: crc32(bytes@) }),
    {
        TableHeader { offset, count, hash: checksum(bytes) }
    }
}

/// The header of a bundle.
#[derive(Debug, Clone, Copy, PartialEq, Eq)]
pub struct Header {
    pub magic: u32,
    pub version: u32,
    pub flags: u32,
    pub timestamp: Timestamp,
    pub build: u32,
    pub crc: u32,
    pub segments: u32,
    pub string_data: TableHeader,
    pub cnames: TableHeader,
    pub tweakdb_ids: TableHeader,
    pub resources: TableHeader,
    pub definitions: TableHeader,
    pub strings: TableHeader,
}

/// The place of a table, as bytes.
pub open spec fn table_header_wire(v: TableHeader) -> Seq<u8> {
    le32(v.offset) + le32(v.count) + le32(v.hash)
}

/// The place of a table at `pos`, and the position after it.
pub open spec fn parse_table_header(bytes: Seq<u8>, pos: int) -> Result<(TableHeader, int), Error> {
    let r0 = parse_u32(bytes, pos);
    let (f0, n0) = r0->Ok_0;
    let r1 = parse_u32(bytes, n0);
    let (f1, n1) = r1->Ok_0;
    let r2 = parse_u32(bytes, n1);
    let (f2, n2) = r2->Ok_0;
    if r0 is Err {
        Err(r0->Err_0)
    } else if r1 is Err {
        Err(r1->Err_0)
    } else if r2 is Err {
        Err(r2->Err_0)
    } else {
        Ok((TableHeader { offset: f0, count: f1, hash: f2 }, n2))
    }
}

/// Decodes the place of a table at `pos`; hands back the value and the
/// position after it.
pub fn take_table_header(bytes: &[u8], pos: usize) -> (r: Result<(TableHeader, usize), Error>)
    ensures
        parsed(parse_table_header(bytes@, pos as int), r),
{
    let (f0, n0) = take_u32(bytes, pos)?;
    let (f1, n1) = take_u32(bytes, n0)?;
    let (f2, n2) = take_u32(bytes, n1)?;
    Ok((TableHeader { offset: f0, count: f1, hash: f2 }, n2))
}

/// Lays the place of a table over the buffer at `pos`, where there is room
/// for it.
pub(crate) fn put_table_header(
    bytes: &mut [u8],
    pos: usize,
    v: &TableHeader,
) -> (r: Result<usize, Error>)
    requires
        pos + table_header_wire(*v).len() <= old(bytes)@.len(),
    ensures
        laid(old(bytes)@, pos as int, table_header_wire(*v), r, final(bytes)@),
{
    proof {
        lemma_le_len();
    }
    let ghost w0 = le32(v.offset);
    let ghost w1 = le32(v.count);
    let ghost w2 = le32(v.hash);
    let n0 = put_u32(bytes, pos, v.offset)?;
    let n1 = put_u32(bytes, n0, v.count)?;
    let ghost a1 = w0 + w1;
    assert(bytes@ == overlay(old(bytes)@, pos as int, a1) && n1 == pos + a1.len()) by {
        lemma_overlay_concat(old(bytes)@, pos as int, w0, w1);
    }
    let n2 = put_u32(bytes, n1, v.hash)?;
    let ghost a2 = a1 + w2;
    assert(bytes@ == overlay(old(bytes)@, pos as int, a2) && n2 == pos + a2.len()) by {
        lemma_overlay_concat(old(bytes)@, pos as int, a1, w2);
    }
    Ok(n2)
}

/// The place of a table that the buffer holds is read back.
pub proof fn lemma_parse_table_header_at(bytes: Seq<u8>, pos: int, v: TableHeader)
    requires
        holds_at(bytes, pos, table_header_wire(v)),
    ensures
        parse_table_header(bytes, pos) == Ok::<(TableHeader, int), Error>(
            (v, pos + table_header_wire(v).len()),
        ),
{
    broadcast use group_index;

    lemma_le_len();
    lemma_holds_at_concat(bytes, pos, le32(v.offset) + le32(v.count), le32(v.hash));
    lemma_holds_at_concat(bytes, pos, le32(v.offset), le32(v.count));
    lemma_parse_u32_at(bytes, pos, v.offset);
    lemma_parse_u32_at(bytes, pos + (le32(v.offset)).len(), v.count);
    lemma_parse_u32_at(bytes, pos + (le32(v.offset) + le32(v.count)).len(), v.hash);
}

/// The place of a table takes 12 bytes.
pub proof fn lemma_table_header_len(v: TableHeader)
    ensures
        table_header_wire(v).len() == 12,
{
    lemma_le_len();
}

/// The header of a bundle, as bytes.
pub open spec fn header_wire(v: Header) -> Seq<u8> {
    be32_wire(v.magic)
        + le32(v.version)
        + le32(v.flags)
        + le64(v.timestamp.bits)
        + le32(v.build)
        + le32(v.crc)
        + le32(v.segments)
        + table_header_wire(v.string_data)
        + table_header_wire(v.cnames)
        + table_header_wire(v.tweakdb_ids)
        + table_header_wire(v.resources)
        + table_header_wire(v.definitions)
        + table_header_wire(v.strings)
}

/// The header of a bundle at `pos`, and the position after it.
pub open spec fn parse_header(bytes: Seq<u8>, pos: int) -> Result<(Header, int), Error> {
    let r0 = parse_be32(bytes, pos);
    let (f0, n0) = r0->Ok_0;
    let r1 = parse_u32(bytes, n0);
    let (f1, n1) = r1->Ok_0;
    let r2 = parse_u32(bytes, n1);
    let (f2, n2) = r2->Ok_0;
    let r3 = parse_u64(bytes, n2);
    let (f3, n3) = r3->Ok_0;
    let r4 = parse_u32(bytes, n3);
    let (f4, n4) = r4->Ok_0;
    let r5 = parse_u32(bytes, n4);
    let (f5, n5) = r5->Ok_0;
    let r6 = parse_u32(bytes, n5);
    let (f6, n6) = r6->Ok_0;
    let r7 = parse_table_header(bytes, n6);
    let (f7, n7) = r7->Ok_0;
    let r8 = parse_table_header(bytes, n7);
    let (f8, n8) = r8->Ok_0;
    let r9 = parse_table_header(bytes, n8);
    let (f9, n9) = r9->Ok_0;
    let r10 = parse_table_header(bytes, n9);
    let (f10, n10) = r10->Ok_0;
    let r11 = parse_table_header(bytes, n10);
    let (f11, n11) = r11->Ok_0;
    let r12 = parse_table_header(bytes, n11);
    let (f12, n12) = r12->Ok_0;
    if r0 is Err {
        Err(r0->Err_0)
    } else if r1 is Err {
        Err(r1->Err_0)
    } else if r2 is Err {
        Err(r2->Err_0)
    } else if r3 is Err {
        Err(r3->Err_0)
    } else if r4 is Err {
        Err(r4->Err_0)
    } else if r5 is Err {
        Err(r5->Err_0)
    } else if r6 is Err {
        Err(r6->Err_0)
    } else if r7 is Err {
        Err(r7->Err_0)
    } else if r8 is Err {
        Err(r8->Err_0)
    } else if r9 is Err {
        Err(r9->Err_0)
    } else if r10 is Err {
        Err(r10->Err_0)
    } else if r11 is Err {
        Err(r11->Err_0)
    } else if r12 is Err {
        Err(r12->Err_0)
    } else {
        Ok(
            (
                Header {
                    magic: f0,
                    version: f1,
                    flags: f2,
                    timestamp: Timestamp { bits: f3 },
                    build: f4,
                    crc: f5,
                    segments: f6,
                    string_data: f7,
                    cnames: f8,
                    tweakdb_ids: f9,
                    resources: f10,
                    definitions: f11,
                    strings: f12,
                },
                n12,
            ),
        )
    }
}

/// Decodes the header of a bundle at `pos`; hands back the value and the
/// position after it.
pub fn take_header(bytes: &[u8], pos: usize) -> (r: Result<(Header, usize), Error>)
    ensures
        parsed(parse_header(bytes@, pos as int), r),
{
    let (f0, n0) = take_be32(bytes, pos)?;
    let (f1, n1) = take_u32(bytes, n0)?;
    let (f2, n2) = take_u32(bytes, n1)?;
    let (f3, n3) = take_u64(bytes, n2)?;
    let (f4, n4) = take_u32(bytes, n3)?;
    let (f5, n5) = take_u32(bytes, n4)?;
    let (f6, n6) = take_u32(bytes, n5)?;
    let (f7, n7) = take_table_header(bytes, n6)?;
    let (f8, n8) = take_table_header(bytes, n7)?;
    let (f9, n9) = take_table_header(bytes, n8)?;
    let (f10, n10) = take_table_header(bytes, n9)?;
    let (f11, n11) = take_table_header(bytes, n10)?;
    let (f12, n12) = take_table_header(bytes, n11)?;
    Ok(
        (
            Header {
                magic: f0,
                version: f1,
                flags: f2,
                timestamp: Timestamp { bits: f3 },
                build: f4,
                crc: f5,
                segments: f6,
                string_data: f7,
                cnames: f8,
                tweakdb_ids: f9,
                resources: f10,
                definitions: f11,
                strings: f12,
            },
            n12,
        ),
    )
}

/// Lays the header of a bundle over the buffer at `pos`, where there is room
/// for it.
pub(crate) fn put_header(bytes: &mut [u8], pos: usize, v: &Header) -> (r: Result<usize, Error>)
    requires
        pos + header_wire(*v).len() <= old(bytes)@.len(),
    ensures
        laid(old(bytes)@, pos as int, header_wire(*v), r, final(bytes)@),
{
    proof {
        lemma_le_len();
    }
    let ghost w0 = be32_wire(v.magic);
    let ghost w1 = le32(v.version);
    let ghost w2 = le32(v.flags);
    let ghost w3 = le64(v.timestamp.bits);
    let ghost w4 = le32(v.build);
    let ghost w5 = le32(v.crc);
    let ghost w6 = le32(v.segments);
    let ghost w7 = table_header_wire(v.string_data);
    let ghost w8 = table_header_wire(v.cnames);
    let ghost w9 = table_header_wire(v.tweakdb_ids);
    let ghost w10 = table_header_wire(v.resources);
    let ghost w11 = table_header_wire(v.definitions);
    let ghost w12 = table_header_wire(v.strings);
    let n0 = put_be32(bytes, pos, v.magic)?;
    let n1 = put_u32(bytes, n0, v.version)?;
    let ghost a1 = w0 + w1;
    assert(bytes@ == overlay(old(bytes)@, pos as int, a1) && n1 == pos + a1.len()) by {
        lemma_overlay_concat(old(bytes)@, pos as int, w0, w1);
    }
    let n2 = put_u32(bytes, n1, v.flags)?;
    let ghost a2 = a1 + w2;
    assert(bytes@ == overlay(old(bytes)@, pos as int, a2) && n2 == pos + a2.len()) by {
        lemma_overlay_concat(old(bytes)@, pos as int, a1, w2);
    }
    let n3 = put_u64(bytes, n2, v.timestamp.bits)?;
    let ghost a3 = a2 + w3;
    assert(bytes@ == overlay(old(bytes)@, pos as int, a3) && n3 == pos + a3.len()) by {
        lemma_overlay_concat(old(bytes)@, pos as int, a2, w3);
    }
    let n4 = put_u32(bytes, n3, v.build)?;
    let ghost a4 = a3 + w4;
    assert(bytes@ == overlay(old(bytes)@, pos as int, a4) && n4 == pos + a4.len()) by {
        lemma_overlay_concat(old(bytes)@, pos as int, a3, w4);
    }
    let n5 = put_u32(bytes, n4, v.crc)?;
    let ghost a5 = a4 + w5;
    assert(bytes@ == overlay(old(bytes)@, pos as int, a5) && n5 == pos + a5.len()) by {
        lemma_overlay_concat(old(bytes)@, pos as int, a4, w5);
    }
    let n6 = put_u32(bytes, n5, v.segments)?;
    let ghost a6 = a5 + w6;
    assert(bytes@ == overlay(old(bytes)@, pos as int, a6) && n6 == pos + a6.len()) by {
        lemma_overlay_concat(old(bytes)@, pos as int, a5, w6);
    }
    let n7 = put_table_header(bytes, n6, &v.string_data)?;
    let ghost a7 = a6 + w7;
    assert(bytes@ == overlay(old(bytes)@, pos as int, a7) && n7 == pos + a7.len()) by {
        lemma_overlay_concat(old(bytes)@, pos as int, a6, w7);
    }
    let n8 = put_table_header(bytes, n7, &v.cnames)?;
    let ghost a8 = a7 + w8;
    assert(bytes@ == overlay(old(bytes)@, pos as int, a8) && n8 == pos + a8.len()) by {
        lemma_overlay_concat(old(bytes)@, pos as int, a7, w8);
    }
    let n9 = put_table_header(bytes, n8, &v.tweakdb_ids)?;
    let ghost a9 = a8 + w9;
    assert(bytes@ == overlay(old(bytes)@, pos as int, a9) && n9 == pos + a9.len()) by {
        lemma_overlay_concat(old(bytes)@, pos as int, a8, w9);
    }
    let n10 = put_table_header(bytes, n9, &v.resources)?;
    let ghost a10 = a9 + w10;
    assert(bytes@ == overlay(old(bytes)@, pos as int, a10) && n10 == pos + a10.len()) by {
        lemma_overlay_concat(old(bytes)@, pos as int, a9, w10);
    }
    let n11 = put_table_header(bytes, n10, &v.definitions)?;
    let ghost a11 = a10 + w11;
    assert(bytes@ == overlay(old(bytes)@, pos as int, a11) && n11 == pos + a11.len()) by {
        lemma_overlay_concat(old(bytes)@, pos as int, a10, w11);
    }
    let n12 = put_table_header(bytes, n11, &v.strings)?;
    let ghost a12 = a11 + w12;
    assert(bytes@ == overlay(old(bytes)@, pos as int, a12) && n12 == pos + a12.len()) by {
        lemma_overlay_concat(old(bytes)@, pos as int, a11, w12);
    }
    Ok(n12)
}

/// The header of a bundle that the buffer holds is read back.
pub proof fn lemma_parse_header_at(bytes: Seq<u8>, pos: int, v: Header)
    requires
        holds_at(bytes, pos, header_wire(v)),
    ensures
        parse_header(bytes, pos) == Ok::<(Header, int), Error>((v, pos + header_wire(v).len())),
{
    broadcast use group_index;

    lemma_le_len();
    let w0 = be32_wire(v.magic);
    let w1 = le32(v.version);
    let w2 = le32(v.flags);
    let w3 = le64(v.timestamp.bits);
    let w4 = le32(v.build);
    let w5 = le32(v.crc);
    let w6 = le32(v.segments);
    let w7 = table_header_wire(v.string_data);
    let w8 = table_header_wire(v.cnames);
    let w9 = table_header_wire(v.tweakdb_ids);
    let w10 = table_header_wire(v.resources);
    let w11 = table_header_wire(v.definitions);
    let w12 = table_header_wire(v.strings);
    let a0 = w0;
    let a1 = a0 + w1;
    let a2 = a1 + w2;
    let a3 = a2 + w3;
    let a4 = a3 + w4;
    let a5 = a4 + w5;
    let a6 = a5 + w6;
    let a7 = a6 + w7;
    let a8 = a7 + w8;
    let a9 = a8 + w9;
    let a10 = a9 + w10;
    let a11 = a10 + w11;
    let a12 = a11 + w12;
    let q0 = pos;
    let q1 = pos + a0.len();
    let q2 = pos + a1.len();
    let q3 = pos + a2.len();
    let q4 = pos + a3.len();
    let q5 = pos + a4.len();
    let q6 = pos + a5.len();
    let q7 = pos + a6.len();
    let q8 = pos + a7.len();
    let q9 = pos + a8.len();
    let q10 = pos + a9.len();
    let q11 = pos + a10.len();
    let q12 = pos + a11.len();
    let q13 = pos + a12.len();
    assert(header_wire(v) =~= a12);
    assert(holds_at(bytes, pos, a11) && holds_at(bytes, q12, w12)) by {
        lemma_holds_at_concat(bytes, pos, a11, w12);
    }
    assert(holds_at(bytes, pos, a10) && holds_at(bytes, q11, w11)) by {
        lemma_holds_at_concat(bytes, pos, a10, w11);
    }
    assert(holds_at(bytes, pos, a9) && holds_at(bytes, q10, w10)) by {
        lemma_holds_at_concat(bytes, pos, a9, w10);
    }
    assert(holds_at(bytes, pos, a8) && holds_at(bytes, q9, w9)) by {
        lemma_holds_at_concat(bytes, pos, a8, w9);
    }
    assert(holds_at(bytes, pos, a7) && holds_at(bytes, q8, w8)) by {
        lemma_holds_at_concat(bytes, pos, a7, w8);
    }
    assert(holds_at(bytes, pos, a6) && holds_at(bytes, q7, w7)) by {
        lemma_holds_at_concat(bytes, pos, a6, w7);
    }
    assert(holds_at(bytes, pos, a5) && holds_at(bytes, q6, w6)) by {
        lemma_holds_at_concat(bytes, pos, a5, w6);
    }
    assert(holds_at(bytes, pos, a4) && holds_at(bytes, q5, w5)) by {
        lemma_holds_at_concat(bytes, pos, a4, w5);
    }
    assert(holds_at(bytes, pos, a3) && holds_at(bytes, q4, w4)) by {
        lemma_holds_at_concat(bytes, pos, a3, w4);
    }
    assert(holds_at(bytes, pos, a2) && holds_at(bytes, q3, w3)) by {
        lemma_holds_at_concat(bytes, pos, a2, w3);
    }
    assert(holds_at(bytes, pos, a1) && holds_at(bytes, q2, w2)) by {
        lemma_holds_at_concat(bytes, pos, a1, w2);
    }
    assert(holds_at(bytes, pos, a0) && holds_at(bytes, q1, w1)) by {
        lemma_holds_at_concat(bytes, pos, a0, w1);
    }
    assert(({
        let r = parse_be32(bytes, q0);
        r is Ok && r->Ok_0.0 == v.magic && r->Ok_0.1 == q1
    })) by {
        lemma_parse_be32_at(bytes, q0, v.magic);
    }
    assert(({
        let r = parse_u32(bytes, q1);
        r is Ok && r->Ok_0.0 == v.version && r->Ok_0.1 == q2
    })) by {
        lemma_parse_u32_at(bytes, q1, v.version);
    }
    assert(({
        let r = parse_u32(bytes, q2);
        r is Ok && r->Ok_0.0 == v.flags && r->Ok_0.1 == q3
    })) by {
        lemma_parse_u32_at(bytes, q2, v.flags);
    }
    assert(({
        let r = parse_u64(bytes, q3);
        r is Ok && r->Ok_0.0 == v.timestamp.bits && r->Ok_0.1 == q4
    })) by {
        lemma_parse_u64_at(bytes, q3, v.timestamp.bits);
    }
    assert(({
        let r = parse_u32(bytes, q4);
        r is Ok && r->Ok_0.0 == v.build && r->Ok_0.1 == q5
    })) by {
        lemma_parse_u32_at(bytes, q4, v.build);
    }
    assert(({
        let r = parse_u32(bytes, q5);
        r is Ok && r->Ok_0.0 == v.crc && r->Ok_0.1 == q6
    })) by {
        lemma_parse_u32_at(bytes, q5, v.crc);
    }
    assert(({
        let r = parse_u32(bytes, q6);
        r is Ok && r->Ok_0.0 == v.segments && r->Ok_0.1 == q7
    })) by {
        lemma_parse_u32_at(bytes, q6, v.segments);
    }
    assert(({
        let r = parse_table_header(bytes, q7);
        r is Ok && r->Ok_0.0 == v.string_data && r->Ok_0.1 == q8
    })) by {
        lemma_parse_table_header_at(bytes, q7, v.string_data);
    }
    assert(({
        let r = parse_table_header(bytes, q8);
        r is Ok && r->Ok_0.0 == v.cnames && r->Ok_0.1 == q9
    })) by {
        lemma_parse_table_header_at(bytes, q8, v.cnames);
    }
    assert(({
        let r = parse_table_header(bytes, q9);
        r is Ok && r->Ok_0.0 == v.tweakdb_ids && r->Ok_0.1 == q10
    })) by {
        lemma_parse_table_header_at(bytes, q9, v.tweakdb_ids);
    }
    assert(({
        let r = parse_table_header(bytes, q10);
        r is Ok && r->Ok_0.0 == v.resources && r->Ok_0.1 == q11
    })) by {
        lemma_parse_table_header_at(bytes, q10, v.resources);
    }
    assert(({
        let r = parse_table_header(bytes, q11);
        r is Ok && r->Ok_0.0 == v.definitions && r->Ok_0.1 == q12
    })) by {
        lemma_parse_table_header_at(bytes, q11, v.definitions);
    }
    assert(({
        let r = parse_table_header(bytes, q12);
        r is Ok && r->Ok_0.0 == v.strings && r->Ok_0.1 == q13
    })) by {
        lemma_parse_table_header_at(bytes, q12, v.strings);
    }
}

/// The header of a bundle takes 104 bytes.
pub proof fn lemma_header_len(v: Header)
    ensures
        header_wire(v).len() == 104,
{
    lemma_le_len();
    lemma_be32_len();
    lemma_table_header_len(v.string_data);
    lemma_table_header_len(v.cnames);
    lemma_table_header_len(v.tweakdb_ids);
    lemma_table_header_len(v.resources);
    lemma_table_header_len(v.definitions);
    lemma_table_header_len(v.strings);
}


/// The error that a file which does not start with the magic number is
/// answered with.
pub open spec fn invalid_magic_error() -> Error {
    Error::BadInput { err: "invalid magic number" }
}

/// The error that a file of another version is answered with.
pub open spec fn unsupported_version_error() -> Error {
    Error::BadInput { err: "unsupported version" }
}

/// The header of the file: the magic number is looked at first, the version
/// next, and the rest of the header only where both are right.
pub open spec fn parse_file_header(bytes: Seq<u8>) -> Result<Header, Error> {
    match parse_be32(bytes, 0) {
        Err(e) => Err(e),
        Ok((magic, _)) => if magic != MAGIC {
            Err(invalid_magic_error())
        } else {
            match parse_u32(bytes, 4) {
                Err(e) => Err(e),
                Ok((version, _)) => if version != SUPPORTED_VERSION {
                    Err(unsupported_version_error())
                } else {
                    match parse_header(bytes, 0) {
                        Err(e) => Err(e),
                        Ok((header, _)) => Ok(header),
                    }
                },
            }
        },
    }
}

/// Decodes and checks the header of the file.
pub fn read_file_header(bytes: &[u8]) -> (r: Result<Header, Error>)
    ensures
        r == parse_file_header(bytes@),
{
    let (magic, _) = take_be32(bytes, 0)?;
    if magic != MAGIC {
        return Err(Error::BadInput { err: "invalid magic number" });
    }
    let (version, _) = take_u32(bytes, 4)?;
    if version != SUPPORTED_VERSION {
        return Err(Error::BadInput { err: "unsupported version" });
    }
    let (header, _) = take_header(bytes, 0)?;
    Ok(header)
}

/// A file that has four bytes and does not start with `R E D S` is answered
/// with the error for the magic number, whatever else it holds; one that
/// starts with them, has eight bytes and names another version than the
/// supported one is answered with the error for the version.
pub proof fn lemma_magic_and_version(bytes: Seq<u8>)
    ensures
        bytes.len() >= 4 && !(bytes[0] == 0x52 && bytes[1] == 0x45 && bytes[2] == 0x44 && bytes[3]
            == 0x53) ==> parse_file_header(bytes) == Err::<Header, Error>(invalid_magic_error()),
        bytes.len() >= 8 && bytes[0] == 0x52 && bytes[1] == 0x45 && bytes[2] == 0x44 && bytes[3]
            == 0x53 && parse_u32(bytes, 4)->Ok_0.0 != SUPPORTED_VERSION ==> parse_file_header(bytes)
            == Err::<Header, Error>(unsupported_version_error()),
        parse_file_header(bytes) matches Ok(h) ==> h.magic == MAGIC && h.version
            == SUPPORTED_VERSION,
{
    lemma_magic_bytes();
    if parse_file_header(bytes) is Ok {
        let h = parse_file_header(bytes)->Ok_0;
        assert(h.magic == MAGIC);
        assert(h.version == SUPPORTED_VERSION);
    }
}

} // verus!
